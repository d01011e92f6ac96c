//! Arithmetic on doubles as bit patterns: multiplication and division,
//! rounded to the nearest double with ties to the even one, as the binary64
//! format of IEEE 754 asks.
//!
//! A finite double is a significand times a power of two. The exact
//! product, or a quotient with enough digits and a digit that tells
//! whether anything is left, is rounded to 53 significant bits, or to the
//! spacing of the subnormal doubles where it is that small.

use crate::schema::Double;
use vstd::arithmetic::power2::{
    lemma2_to64, lemma2_to64_rest, lemma_pow2_adds, lemma_pow2_pos, lemma_pow2_strictly_increases,
    lemma_pow2_unfold, pow2,
};
use vstd::prelude::*;

verus! {

/// Two to the power of 52: the hidden bit of a normal significand.
pub const HIDDEN_BIT: u64 = 0x10_0000_0000_0000;

/// The sign bit of a double.
pub const SIGN_BIT: u64 = 0x8000_0000_0000_0000;

/// The bits of positive infinity.
pub const INFINITY_BITS: u64 = 0x7ff0_0000_0000_0000;

/// The bits of the quiet not-a-number that the operations give.
pub const QUIET_NAN_BITS: u64 = 0x7ff8_0000_0000_0000;

/// Whether the sign bit is set.
pub open spec fn negative(bits: u64) -> bool {
    bits >= SIGN_BIT
}

/// The exponent field: eleven bits.
pub open spec fn exponent_field(bits: u64) -> nat {
    ((bits / HIDDEN_BIT) % 0x800) as nat
}

/// The fraction field: 52 bits.
pub open spec fn fraction_field(bits: u64) -> nat {
    (bits % HIDDEN_BIT) as nat
}

/// Holds of the bit patterns that are not a number.
pub open spec fn is_nan(bits: u64) -> bool {
    exponent_field(bits) == 0x7ff && fraction_field(bits) != 0
}

/// Holds of the two infinities.
pub open spec fn is_infinite(bits: u64) -> bool {
    exponent_field(bits) == 0x7ff && fraction_field(bits) == 0
}

/// The significand of a finite double: the fraction, with the hidden bit
/// where the double is normal.
pub open spec fn significand(bits: u64) -> nat {
    if exponent_field(bits) == 0 {
        fraction_field(bits)
    } else {
        HIDDEN_BIT as nat + fraction_field(bits)
    }
}

/// The power of two that the significand of a finite double is scaled by.
pub open spec fn scale(bits: u64) -> int {
    if exponent_field(bits) == 0 {
        -1074
    } else {
        exponent_field(bits) - 1075
    }
}

/// The number of bits of `n`: the least count such that `n` is below two
/// to its power.
pub open spec fn bit_length(n: nat) -> nat
    decreases n,
{
    if n == 0 {
        0
    } else {
        1 + bit_length(n / 2)
    }
}

/// `m` divided by two to the power of `drop`, rounded to the nearest
/// integer, and to the even one where two are as near.
#[verifier::opaque]
pub open spec fn round_shift(m: nat, drop: nat) -> nat {
    let unit = pow2(drop);
    let q = m / unit;
    let rem = m % unit;
    if 2 * rem > unit || (2 * rem == unit && q % 2 == 1) {
        q + 1
    } else {
        q
    }
}

/// The bits of a sign alone.
pub open spec fn sign_bits(is_negative: bool) -> u64 {
    if is_negative {
        SIGN_BIT
    } else {
        0
    }
}

/// The significand of a normal result: `m`, which has `len` bits, brought
/// to 53 bits, by rounding where it has more.
#[verifier::opaque]
pub open spec fn normal_significand(m: nat, len: nat) -> nat {
    if len > 53 {
        round_shift(m, (len - 53) as nat)
    } else {
        m * pow2((53 - len) as nat)
    }
}

/// The significand of a subnormal result: `m` times two to the power of
/// `e`, in units of two to the power of -1074, by rounding where it is
/// finer.
#[verifier::opaque]
pub open spec fn subnormal_significand(m: nat, e: int) -> nat {
    if e >= -1074 {
        m * pow2((e + 1074) as nat)
    } else {
        round_shift(m, (-1074 - e) as nat)
    }
}

/// The bits of the double nearest to `m` times two to the power of `e`,
/// with the sign given: zero for zero, infinity where the result is past
/// the largest double, a subnormal double where it is below the smallest
/// normal one. A significand that rounding carries to the next power of
/// two carries into the exponent field.
pub open spec fn round_to_bits(is_negative: bool, m: nat, e: int) -> u64 {
    let sign = sign_bits(is_negative);
    if m == 0 {
        sign
    } else {
        let len = bit_length(m);
        let biased = e + len + 1022;
        if biased >= 1 {
            let field = (biased - 1) * HIDDEN_BIT + normal_significand(m, len);
            if field >= INFINITY_BITS {
                (sign + INFINITY_BITS) as u64
            } else {
                (sign + field) as u64
            }
        } else {
            (sign + subnormal_significand(m, e)) as u64
        }
    }
}

/// A positive number lies between the powers of two of its bit length.
pub proof fn lemma_bit_length(n: nat)
    ensures
        n < pow2(bit_length(n)),
        n > 0 ==> pow2((bit_length(n) - 1) as nat) <= n,
    decreases n,
{
    lemma2_to64();
    if n > 0 {
        lemma_bit_length(n / 2);
        lemma_pow2_unfold(bit_length(n));
        if n / 2 > 0 {
            lemma_pow2_unfold((bit_length(n) - 1) as nat);
        }
    }
}

/// A number below a power of two has at most as many bits.
pub proof fn lemma_bit_length_at_most(n: nat, bits: nat)
    requires
        n < pow2(bits),
    ensures
        bit_length(n) <= bits,
{
    lemma_bit_length(n);
    if bit_length(n) > bits {
        if bits < bit_length(n) - 1 {
            lemma_pow2_strictly_increases(bits, (bit_length(n) - 1) as nat);
        }
    }
}

/// Dividing a number below a power of two by a smaller power of two gives
/// a number below the power of the difference; dividing by a power that is
/// not smaller gives zero.
pub proof fn lemma_shift_bound(m: nat, bits: nat, drop: nat)
    requires
        m < pow2(bits),
    ensures
        drop <= bits ==> m / pow2(drop) < pow2((bits - drop) as nat),
        drop >= bits ==> m / pow2(drop) == 0,
{
    lemma_pow2_pos(drop);
    let unit = pow2(drop);
    if drop <= bits {
        lemma_pow2_adds(drop, (bits - drop) as nat);
        let rest = pow2((bits - drop) as nat);
        assert(m / unit < rest) by (nonlinear_arith)
            requires
                m < unit * rest,
                unit > 0,
        ;
    }
    if drop >= bits {
        if drop > bits {
            lemma_pow2_strictly_increases(bits, drop);
        }
        assert(m / unit == 0) by (nonlinear_arith)
            requires
                m < unit,
                unit > 0,
        ;
    }
}

/// Multiplying a number below a power of two by a power of two gives a
/// number below the power of the sum.
pub proof fn lemma_scale_bound(m: nat, bits: nat, up: nat)
    requires
        m < pow2(bits),
    ensures
        m * pow2(up) < pow2(bits + up),
{
    lemma_pow2_pos(up);
    lemma_pow2_adds(bits, up);
    let unit = pow2(up);
    let top = pow2(bits);
    assert(m * unit < top * unit) by (nonlinear_arith)
        requires
            m < top,
            unit > 0,
    ;
}

/// Two to the power of 127, the largest power of two of 128 bits.
pub proof fn lemma_pow2_127()
    ensures
        pow2(127) == 0x8000_0000_0000_0000_0000_0000_0000_0000,
        pow2(120) == 0x100_0000_0000_0000_0000_0000_0000_0000,
        pow2(110) == 0x4000_0000_0000_0000_0000_0000_0000,
{
    lemma2_to64();
    lemma2_to64_rest();
    lemma_pow2_adds(64, 63);
    lemma_pow2_adds(64, 56);
    lemma_pow2_adds(64, 46);
}

/// Two to the power of `k`.
fn power_of_two(k: u32) -> (r: u128)
    requires
        k <= 127,
    ensures
        r == pow2(k as nat),
{
    proof {
        lemma2_to64();
        lemma_pow2_127();
    }
    let mut r: u128 = 1;
    let mut i: u32 = 0;
    while i < k
        invariant
            i <= k,
            k <= 127,
            r == pow2(i as nat),
            pow2(127) == 0x8000_0000_0000_0000_0000_0000_0000_0000,
        decreases k - i,
    {
        proof {
            lemma_pow2_unfold((i + 1) as nat);
            if i + 1 < 127 {
                lemma_pow2_strictly_increases((i + 1) as nat, 127);
            }
        }
        r = r * 2;
        i = i + 1;
    }
    r
}

/// The number of bits of `n`.
fn count_bits(n: u128) -> (r: u32)
    ensures
        r == bit_length(n as nat),
        r <= 128,
{
    proof {
        lemma2_to64();
        lemma_pow2_adds(64, 64);
        lemma_bit_length_at_most(n as nat, 128);
    }
    let mut rest = n;
    let mut count: u32 = 0;
    while rest > 0
        invariant
            bit_length(n as nat) == count + bit_length(rest as nat),
            count + bit_length(rest as nat) <= 128,
        decreases rest,
    {
        rest = rest / 2;
        count = count + 1;
    }
    count
}

/// `m` divided by two to the power of `drop`, rounded to the nearest
/// integer, ties to even.
fn round_shifted(m: u128, drop: u32) -> (r: u128)
    requires
        m < pow2(120),
    ensures
        r == round_shift(m as nat, drop as nat),
        r <= (m as nat) / pow2(drop as nat) + 1,
{
    proof {
        reveal(round_shift);
        lemma_pow2_127();
        lemma_pow2_pos(drop as nat);
    }
    if drop >= 122 {
        proof {
            let unit = pow2(drop as nat);
            lemma_pow2_unfold(121);
            lemma_pow2_unfold(122);
            if drop > 122 {
                lemma_pow2_strictly_increases(122, drop as nat);
            }
            assert(unit >= 4 * pow2(120));
            lemma_shift_bound(m as nat, 120, drop as nat);
            assert((m as nat) % unit == m) by (nonlinear_arith)
                requires
                    m < unit,
                    unit > 0,
            ;
        }
        0
    } else {
        proof {
            if drop < 121 {
                lemma_pow2_strictly_increases(drop as nat, 121);
            }
            lemma_pow2_unfold(121);
        }
        let unit = power_of_two(drop);
        let q = m / unit;
        let rem = m % unit;
        if 2 * rem > unit || (2 * rem == unit && q % 2 == 1) {
            q + 1
        } else {
            q
        }
    }
}

/// The significand of a normal result.
fn normal_part(m: u128, len: u32) -> (r: u128)
    requires
        0 < m < pow2(110),
        len == bit_length(m as nat),
    ensures
        r == normal_significand(m as nat, len as nat),
        r <= 0x4000_0000_0000_0000_0000_0000_0000,
{
    proof {
        reveal(normal_significand);
        lemma_pow2_127();
        lemma2_to64();
        lemma2_to64_rest();
        lemma_bit_length(m as nat);
        lemma_bit_length_at_most(m as nat, 110);
        lemma_pow2_strictly_increases(110, 120);
    }
    if len > 53 {
        let r = round_shifted(m, len - 53);
        proof {
            lemma_pow2_pos((len - 53) as nat);
            let unit = pow2((len - 53) as nat);
            assert((m as nat) / unit <= m) by (nonlinear_arith)
                requires
                    unit > 0,
            ;
        }
        r
    } else {
        proof {
            lemma_scale_bound(m as nat, len as nat, (53 - len) as nat);
        }
        m * power_of_two(53 - len)
    }
}

/// A number that with its scaling stays within 52 bits is below two to
/// the power of 52.
proof fn lemma_subnormal_exact(m: nat, len: nat, up: nat)
    requires
        m < pow2(len),
        len + up <= 52,
    ensures
        m * pow2(up) < 0x10_0000_0000_0000,
{
    lemma2_to64_rest();
    lemma_scale_bound(m, len, up);
    if len + up < 52 {
        lemma_pow2_strictly_increases(len + up, 52);
    }
}

/// A number that loses all but 52 of its bits is, after rounding up, at
/// most two to the power of 52.
proof fn lemma_subnormal_rounded(m: nat, len: nat, drop: nat)
    requires
        m < pow2(len),
        len <= drop + 52,
    ensures
        m / pow2(drop) + 1 <= 0x10_0000_0000_0000,
{
    lemma2_to64_rest();
    lemma_shift_bound(m, len, drop);
    let shifted = m / pow2(drop);
    if drop <= len {
        let left: nat = (len - drop) as nat;
        assert(shifted < pow2(left));
        if left < 52 {
            lemma_pow2_strictly_increases(left, 52);
        }
        let a = pow2(left);
        let b = pow2(52);
        assert(a <= b);
        assert(shifted + 1 <= b) by (nonlinear_arith)
            requires
                shifted < a,
                a <= b,
        ;
    } else {
        assert(shifted == 0);
        assert(shifted + 1 <= 0x10_0000_0000_0000);
    }
}

/// The significand of a subnormal result.
fn subnormal_part(m: u128, len: u32, e: i64) -> (r: u128)
    requires
        0 < m < pow2(110),
        len == bit_length(m as nat),
        -5000 <= e,
        e + len + 1022 < 1,
    ensures
        r == subnormal_significand(m as nat, e as int),
        r <= 0x10_0000_0000_0000,
{
    proof {
        reveal(subnormal_significand);
        lemma_pow2_127();
        lemma2_to64();
        lemma2_to64_rest();
        lemma_bit_length(m as nat);
        lemma_pow2_strictly_increases(110, 120);
    }
    if e >= -1074 {
        let up: u32 = (e + 1074) as u32;
        proof {
            lemma_subnormal_exact(m as nat, len as nat, up as nat);
        }
        m * power_of_two(up)
    } else {
        let drop: u32 = (-1074 - e) as u32;
        proof {
            lemma_subnormal_rounded(m as nat, len as nat, drop as nat);
        }
        round_shifted(m, drop)
    }
}

/// The bits of the double nearest to `m` times two to the power of `e`.
fn rounded(is_negative: bool, m: u128, e: i64) -> (r: u64)
    requires
        m < pow2(110),
        -5000 <= e <= 5000,
    ensures
        r == round_to_bits(is_negative, m as nat, e as int),
{
    let sign: u64 = if is_negative {
        SIGN_BIT
    } else {
        0
    };
    if m == 0 {
        return sign;
    }
    let len = count_bits(m);
    let biased: i64 = e + len as i64 + 1022;
    if biased >= 1 {
        let q = normal_part(m, len);
        let above: u128 = (biased - 1) as u128;
        let field: u128 = above * 0x10_0000_0000_0000u128 + q;
        if field >= INFINITY_BITS as u128 {
            sign + INFINITY_BITS
        } else {
            sign + field as u64
        }
    } else {
        let q = subnormal_part(m, len, e);
        sign + q as u64
    }
}

/// The sign, the exponent field and the fraction field of a double.
fn parts(bits: u64) -> (r: (bool, u64, u64))
    ensures
        r.0 == negative(bits),
        r.1 == exponent_field(bits),
        r.2 == fraction_field(bits),
        r.1 < 0x800,
        r.2 < HIDDEN_BIT,
{
    (bits >= SIGN_BIT, (bits / HIDDEN_BIT) % 0x800, bits % HIDDEN_BIT)
}

/// The bits of the product of two doubles. A factor that is not a number,
/// and infinity times zero, give the quiet not-a-number; infinity times
/// anything else gives infinity; and finite factors give the double
/// nearest to the exact product. The sign is negative where one factor is.
pub open spec fn product_bits(a: u64, b: u64) -> u64 {
    let is_negative = negative(a) != negative(b);
    if is_nan(a) || is_nan(b) {
        QUIET_NAN_BITS
    } else if is_infinite(a) || is_infinite(b) {
        if (!is_infinite(a) && significand(a) == 0) || (!is_infinite(b) && significand(b) == 0) {
            QUIET_NAN_BITS
        } else {
            (sign_bits(is_negative) + INFINITY_BITS) as u64
        }
    } else {
        round_to_bits(is_negative, significand(a) * significand(b), scale(a) + scale(b))
    }
}

/// The number of digits that the dividend is extended by, so that the
/// quotient of the significands has at least 55 bits.
pub open spec fn quotient_shift(a: u64, b: u64) -> nat {
    (55 + bit_length(significand(b)) - bit_length(significand(a))) as nat
}

/// The bits of the quotient of two doubles. An operand that is not a
/// number, infinity by infinity and zero by zero give the quiet
/// not-a-number; infinity by a finite double and a double that is not zero
/// by zero give infinity; a finite double by infinity and zero by a double
/// that is not zero give zero; and else the quotient of the significands,
/// taken to at least 55 bits with one more bit that tells whether anything
/// is left, gives the nearest double. The sign is negative where one
/// operand is.
pub open spec fn quotient_bits(a: u64, b: u64) -> u64 {
    let is_negative = negative(a) != negative(b);
    if is_nan(a) || is_nan(b) {
        QUIET_NAN_BITS
    } else if is_infinite(a) {
        if is_infinite(b) {
            QUIET_NAN_BITS
        } else {
            (sign_bits(is_negative) + INFINITY_BITS) as u64
        }
    } else if is_infinite(b) {
        sign_bits(is_negative)
    } else if significand(b) == 0 {
        if significand(a) == 0 {
            QUIET_NAN_BITS
        } else {
            (sign_bits(is_negative) + INFINITY_BITS) as u64
        }
    } else if significand(a) == 0 {
        sign_bits(is_negative)
    } else {
        let shift = quotient_shift(a, b);
        let dividend = significand(a) * pow2(shift);
        let quotient = dividend / significand(b);
        let left: nat = if dividend % significand(b) != 0 {
            1
        } else {
            0
        };
        round_to_bits(is_negative, 2 * quotient + left, scale(a) - scale(b) - shift - 1)
    }
}

/// The product of two doubles.
pub fn multiply(a: Double, b: Double) -> (r: Double)
    ensures
        r.bits == product_bits(a.bits, b.bits),
{
    let (negative_a, exponent_a, fraction_a) = parts(a.bits);
    let (negative_b, exponent_b, fraction_b) = parts(b.bits);
    let is_negative = negative_a != negative_b;
    let sign: u64 = if is_negative {
        SIGN_BIT
    } else {
        0
    };
    if (exponent_a == 0x7ff && fraction_a != 0) || (exponent_b == 0x7ff && fraction_b != 0) {
        Double { bits: QUIET_NAN_BITS }
    } else if exponent_a == 0x7ff || exponent_b == 0x7ff {
        if (exponent_a != 0x7ff && exponent_a == 0 && fraction_a == 0) || (exponent_b != 0x7ff
            && exponent_b == 0 && fraction_b == 0) {
            Double { bits: QUIET_NAN_BITS }
        } else {
            Double { bits: sign + INFINITY_BITS }
        }
    } else {
        let significand_a: u128 = if exponent_a == 0 {
            fraction_a as u128
        } else {
            HIDDEN_BIT as u128 + fraction_a as u128
        };
        let significand_b: u128 = if exponent_b == 0 {
            fraction_b as u128
        } else {
            HIDDEN_BIT as u128 + fraction_b as u128
        };
        let scale_a: i64 = if exponent_a == 0 {
            -1074
        } else {
            exponent_a as i64 - 1075
        };
        let scale_b: i64 = if exponent_b == 0 {
            -1074
        } else {
            exponent_b as i64 - 1075
        };
        proof {
            lemma_pow2_127();
            assert(significand_a * significand_b < 0x20_0000_0000_0000 * 0x20_0000_0000_0000)
                by (nonlinear_arith)
                requires
                    significand_a < 0x20_0000_0000_0000,
                    significand_b < 0x20_0000_0000_0000,
            ;
        }
        Double { bits: rounded(is_negative, significand_a * significand_b, scale_a + scale_b) }
    }
}

/// The quotient of two doubles.
pub fn divide(a: Double, b: Double) -> (r: Double)
    ensures
        r.bits == quotient_bits(a.bits, b.bits),
{
    let (negative_a, exponent_a, fraction_a) = parts(a.bits);
    let (negative_b, exponent_b, fraction_b) = parts(b.bits);
    let is_negative = negative_a != negative_b;
    let sign: u64 = if is_negative {
        SIGN_BIT
    } else {
        0
    };
    let significand_a: u128 = if exponent_a == 0 {
        fraction_a as u128
    } else {
        HIDDEN_BIT as u128 + fraction_a as u128
    };
    let significand_b: u128 = if exponent_b == 0 {
        fraction_b as u128
    } else {
        HIDDEN_BIT as u128 + fraction_b as u128
    };
    if (exponent_a == 0x7ff && fraction_a != 0) || (exponent_b == 0x7ff && fraction_b != 0) {
        Double { bits: QUIET_NAN_BITS }
    } else if exponent_a == 0x7ff {
        if exponent_b == 0x7ff {
            Double { bits: QUIET_NAN_BITS }
        } else {
            Double { bits: sign + INFINITY_BITS }
        }
    } else if exponent_b == 0x7ff {
        Double { bits: sign }
    } else if significand_b == 0 {
        if significand_a == 0 {
            Double { bits: QUIET_NAN_BITS }
        } else {
            Double { bits: sign + INFINITY_BITS }
        }
    } else if significand_a == 0 {
        Double { bits: sign }
    } else {
        let scale_a: i64 = if exponent_a == 0 {
            -1074
        } else {
            exponent_a as i64 - 1075
        };
        let scale_b: i64 = if exponent_b == 0 {
            -1074
        } else {
            exponent_b as i64 - 1075
        };
        proof {
            lemma_pow2_127();
            lemma2_to64();
            lemma2_to64_rest();
            lemma_bit_length(significand_a as nat);
            lemma_bit_length(significand_b as nat);
            lemma_bit_length_at_most(significand_a as nat, 53);
            lemma_bit_length_at_most(significand_b as nat, 53);
        }
        let len_a = count_bits(significand_a);
        let len_b = count_bits(significand_b);
        let shift: u32 = 55 + len_b - len_a;
        proof {
            lemma_scale_bound(significand_a as nat, len_a as nat, shift as nat);
            if len_a + shift < 108 {
                lemma_pow2_strictly_increases((len_a + shift) as nat, 108);
            }
            lemma_pow2_unfold(109);
            lemma_pow2_unfold(110);
        }
        let dividend: u128 = significand_a * power_of_two(shift);
        let quotient = dividend / significand_b;
        let left: u128 = if dividend % significand_b != 0 {
            1
        } else {
            0
        };
        assert(quotient <= dividend) by (nonlinear_arith)
            requires
                quotient == dividend / significand_b,
                significand_b > 0,
        ;
        Double {
            bits: rounded(
                is_negative,
                2 * quotient + left,
                scale_a - scale_b - shift as i64 - 1,
            ),
        }
    }
}

/// The bits of a double with its sign turned.
pub open spec fn negated(bits: u64) -> u64 {
    if negative(bits) {
        (bits - SIGN_BIT) as u64
    } else {
        (bits + SIGN_BIT) as u64
    }
}

/// The most that the scales of two operands of a sum may differ for the
/// sum to be taken exactly.
pub const EXACT_SUM_SPAN: u64 = 56;

/// The bits of the double nearest to the sum of `big` and `small`, two
/// finite doubles that are not zero, `big` with the scale that is not
/// lower. Where the scales differ by no more than the exact span, the
/// exact sum is rounded. Where they differ by more, `small` only tips the
/// rounding: it counts as an eighth of the unit of `big`.
pub open spec fn finite_sum_bits(big: u64, small: u64) -> u64 {
    let span = scale(big) - scale(small);
    if span <= EXACT_SUM_SPAN {
        let left = significand(big) * pow2(span as nat);
        let right = significand(small);
        if negative(big) == negative(small) {
            round_to_bits(negative(big), left + right, scale(small))
        } else if left > right {
            round_to_bits(negative(big), (left - right) as nat, scale(small))
        } else if left < right {
            round_to_bits(negative(small), (right - left) as nat, scale(small))
        } else {
            0
        }
    } else if negative(big) == negative(small) {
        round_to_bits(negative(big), significand(big) * 8 + 1, scale(big) - 3)
    } else {
        round_to_bits(negative(big), (significand(big) * 8 - 1) as nat, scale(big) - 3)
    }
}

/// The bits of the sum of two doubles. An operand that is not a number,
/// and the sum of the two infinities, give the quiet not-a-number; an
/// infinity and anything else give the infinity; zero and a double give
/// the double, two zeros the zero of their sign if they agree and else the
/// positive one; and two finite doubles give the double nearest to their
/// sum, which is positive zero where they cancel.
pub open spec fn sum_bits(a: u64, b: u64) -> u64 {
    if is_nan(a) || is_nan(b) {
        QUIET_NAN_BITS
    } else if is_infinite(a) {
        if is_infinite(b) && negative(a) != negative(b) {
            QUIET_NAN_BITS
        } else {
            a
        }
    } else if is_infinite(b) {
        b
    } else if significand(a) == 0 {
        if significand(b) == 0 {
            if negative(a) == negative(b) {
                a
            } else {
                0
            }
        } else {
            b
        }
    } else if significand(b) == 0 {
        a
    } else if scale(a) >= scale(b) {
        finite_sum_bits(a, b)
    } else {
        finite_sum_bits(b, a)
    }
}

/// The bits of the difference of two doubles: the sum of the first and
/// the second with its sign turned.
pub open spec fn difference_bits(a: u64, b: u64) -> u64 {
    sum_bits(a, negated(b))
}

/// Holds of the doubles that are greater than zero: the positive ones up
/// to infinity.
pub open spec fn above_zero(bits: u64) -> bool {
    0 < bits <= INFINITY_BITS
}

/// The significand and the scale of a finite double.
fn magnitude(exponent: u64, fraction: u64) -> (r: (u128, i64))
    requires
        exponent < 0x7ff,
        fraction < HIDDEN_BIT,
    ensures
        r.0 == (if exponent == 0 {
            fraction as nat
        } else {
            HIDDEN_BIT as nat + fraction as nat
        }),
        r.1 == (if exponent == 0 {
            -1074
        } else {
            exponent - 1075
        }),
        r.0 < 0x20_0000_0000_0000,
        -1074 <= r.1 <= 971,
{
    if exponent == 0 {
        (fraction as u128, -1074)
    } else {
        (HIDDEN_BIT as u128 + fraction as u128, exponent as i64 - 1075)
    }
}

/// The sum of two finite doubles that are not zero, the first with the
/// scale that is not lower.
fn finite_sum(big: Double, small: Double) -> (r: Double)
    requires
        !is_nan(big.bits) && !is_infinite(big.bits) && significand(big.bits) != 0,
        !is_nan(small.bits) && !is_infinite(small.bits) && significand(small.bits) != 0,
        scale(big.bits) >= scale(small.bits),
    ensures
        r.bits == finite_sum_bits(big.bits, small.bits),
{
    let (negative_big, exponent_big, fraction_big) = parts(big.bits);
    let (negative_small, exponent_small, fraction_small) = parts(small.bits);
    let (significand_big, scale_big) = magnitude(exponent_big, fraction_big);
    let (significand_small, scale_small) = magnitude(exponent_small, fraction_small);
    let span: i64 = scale_big - scale_small;
    proof {
        lemma_pow2_127();
        lemma2_to64();
        lemma2_to64_rest();
    }
    if span <= 56 {
        proof {
            lemma_scale_bound(significand_big as nat, 53, span as nat);
            if span < 56 {
                lemma_pow2_strictly_increases((53 + span) as nat, 109);
            }
            lemma_pow2_unfold(110);
        }
        let left: u128 = significand_big * power_of_two(span as u32);
        let right: u128 = significand_small;
        if negative_big == negative_small {
            Double { bits: rounded(negative_big, left + right, scale_small) }
        } else if left > right {
            Double { bits: rounded(negative_big, left - right, scale_small) }
        } else if left < right {
            Double { bits: rounded(negative_small, right - left, scale_small) }
        } else {
            Double { bits: 0 }
        }
    } else if negative_big == negative_small {
        Double { bits: rounded(negative_big, significand_big * 8 + 1, scale_big - 3) }
    } else {
        Double { bits: rounded(negative_big, significand_big * 8 - 1, scale_big - 3) }
    }
}

/// The double with its sign turned.
pub fn negate(a: Double) -> (r: Double)
    ensures
        r.bits == negated(a.bits),
{
    if a.bits >= SIGN_BIT {
        Double { bits: a.bits - SIGN_BIT }
    } else {
        Double { bits: a.bits + SIGN_BIT }
    }
}

/// The sum of two doubles.
pub fn sum(a: Double, b: Double) -> (r: Double)
    ensures
        r.bits == sum_bits(a.bits, b.bits),
{
    let (negative_a, exponent_a, fraction_a) = parts(a.bits);
    let (negative_b, exponent_b, fraction_b) = parts(b.bits);
    if (exponent_a == 0x7ff && fraction_a != 0) || (exponent_b == 0x7ff && fraction_b != 0) {
        Double { bits: QUIET_NAN_BITS }
    } else if exponent_a == 0x7ff {
        if exponent_b == 0x7ff && negative_a != negative_b {
            Double { bits: QUIET_NAN_BITS }
        } else {
            a
        }
    } else if exponent_b == 0x7ff {
        b
    } else if exponent_a == 0 && fraction_a == 0 {
        if exponent_b == 0 && fraction_b == 0 {
            if negative_a == negative_b {
                a
            } else {
                Double { bits: 0 }
            }
        } else {
            b
        }
    } else if exponent_b == 0 && fraction_b == 0 {
        a
    } else {
        let scale_a: u64 = if exponent_a == 0 {
            1
        } else {
            exponent_a
        };
        let scale_b: u64 = if exponent_b == 0 {
            1
        } else {
            exponent_b
        };
        if scale_a >= scale_b {
            finite_sum(a, b)
        } else {
            finite_sum(b, a)
        }
    }
}

/// The difference of two doubles.
pub fn subtract(a: Double, b: Double) -> (r: Double)
    ensures
        r.bits == difference_bits(a.bits, b.bits),
{
    sum(a, negate(b))
}

/// Whether a double is greater than zero.
pub fn is_above_zero(a: Double) -> (r: bool)
    ensures
        r == above_zero(a.bits),
{
    0 < a.bits && a.bits <= INFINITY_BITS
}

/// The 32-bit number that a double is cut to: its whole part, zero for
/// what is not a number and for negative doubles, and the largest 32-bit
/// number for what is past it.
pub open spec fn truncated_u32(bits: u64) -> u32 {
    if is_nan(bits) || negative(bits) {
        0
    } else if is_infinite(bits) {
        u32::MAX
    } else if scale(bits) >= 0 {
        if significand(bits) == 0 {
            0
        } else {
            u32::MAX
        }
    } else {
        let whole = significand(bits) / pow2((-scale(bits)) as nat);
        if whole > u32::MAX {
            u32::MAX
        } else {
            whole as u32
        }
    }
}

impl Double {
    /// The double cut to a 32-bit number.
    pub fn to_u32(&self) -> (r: u32)
        ensures
            r == truncated_u32(self.bits),
    {
        let (is_negative, exponent, fraction) = parts(self.bits);
        if (exponent == 0x7ff && fraction != 0) || is_negative {
            0
        } else if exponent == 0x7ff {
            u32::MAX
        } else if exponent >= 1075 {
            u32::MAX
        } else {
            let significand: u128 = if exponent == 0 {
                fraction as u128
            } else {
                HIDDEN_BIT as u128 + fraction as u128
            };
            let drop: u32 = if exponent == 0 {
                1074
            } else {
                (1075 - exponent) as u32
            };
            if drop >= 64 {
                proof {
                    lemma2_to64();
                    lemma2_to64_rest();
                    lemma_pow2_strictly_increases(53, 64);
                    lemma_shift_bound(significand as nat, 64, drop as nat);
                }
                0
            } else {
                proof {
                    lemma_pow2_pos(drop as nat);
                }
                let whole = significand / power_of_two(drop);
                if whole > u32::MAX as u128 {
                    u32::MAX
                } else {
                    whole as u32
                }
            }
        }
    }
}

} // verus!
