//! IEEE 754 binary32 arithmetic on bit patterns, carried out on integers.
//!
//! A finite pattern stands for `±significand × 2^exponent`. Every operation
//! here returns the pattern nearest to the exact result, ties going to the
//! even significand, as the standard's default rounding does. Where the
//! result is not a number the pattern is [`NAN`], whatever the operands'
//! payloads were.

pub mod rounding;

use crate::binary32::rounding::{
    binade,
    bit_length,
    in_binade,
    lemma_binade_exists,
    lemma_binade_unique,
    lemma_round_bounds,
    lemma_round_exact,
    lemma_round_same_value,
    lemma_two_to_positive,
    round_magnitude,
    round_pack,
    two_to,
};
use vstd::arithmetic::div_mod::{lemma_fundamental_div_mod, lemma_fundamental_div_mod_converse};
use vstd::arithmetic::power2::{
    lemma2_to64,
    lemma2_to64_rest,
    lemma_pow2_adds,
    lemma_pow2_pos,
    lemma_pow2_strictly_increases,
    pow2,
};
use vstd::bits::{lemma_u64_shl_is_mul, lemma_u64_shr_is_div};
use vstd::prelude::*;

verus! {

/// The pattern of positive infinity.
pub const INFINITY: u32 = 0x7f80_0000;

/// The pattern this module returns where the result is not a number.
pub const NAN: u32 = 0x7fc0_0000;

/// The sign bit.
pub const SIGN: u32 = 0x8000_0000;

/// The pattern of 1.
pub const ONE: u32 = 0x3f80_0000;

/// The pattern without its sign bit.
pub open spec fn magnitude(bits: u32) -> u32 {
    (bits % 0x8000_0000) as u32
}

/// Whether the sign bit is set.
pub open spec fn is_negative(bits: u32) -> bool {
    bits >= 0x8000_0000
}

/// Whether the pattern is not a number.
pub open spec fn is_nan(bits: u32) -> bool {
    magnitude(bits) > 0x7f80_0000
}

/// Whether the pattern is an infinity.
pub open spec fn is_infinite(bits: u32) -> bool {
    magnitude(bits) == 0x7f80_0000
}

/// Whether the pattern is a number other than an infinity.
pub open spec fn is_finite(bits: u32) -> bool {
    magnitude(bits) < 0x7f80_0000
}

/// Whether the pattern is a zero, of either sign.
pub open spec fn is_zero(bits: u32) -> bool {
    magnitude(bits) == 0
}

/// The integer significand of a finite pattern: its 23 fraction bits, with
/// the implicit leading bit unless the pattern is subnormal.
pub open spec fn significand(bits: u32) -> nat {
    let mag = magnitude(bits);
    if mag < 0x80_0000 {
        mag as nat
    } else {
        (0x80_0000 + mag % 0x80_0000) as nat
    }
}

/// The exponent of a finite pattern, so that its absolute value is
/// `significand × 2^exponent`.
pub open spec fn exponent(bits: u32) -> int {
    let mag = magnitude(bits);
    if mag < 0x80_0000 {
        -149
    } else {
        mag / 0x80_0000 - 150
    }
}

/// The significand of a finite pattern with the pattern's sign.
pub open spec fn signed_significand(bits: u32) -> int {
    if is_negative(bits) {
        -(significand(bits) as int)
    } else {
        significand(bits) as int
    }
}

/// Magnitude bits under the given sign.
pub open spec fn with_sign(negative: bool, mag: u32) -> u32
    recommends
        mag < 0x8000_0000,
{
    if negative {
        (mag + 0x8000_0000) as u32
    } else {
        mag
    }
}

/// The pattern with its sign bit flipped.
pub open spec fn negated(bits: u32) -> u32 {
    with_sign(!is_negative(bits), magnitude(bits))
}

/// The binary32 product: not a number if an operand is not, or if zero
/// meets infinity; else the exact product, rounded, with the sign of the
/// exact product.
pub open spec fn product(a: u32, b: u32) -> u32 {
    let negative = is_negative(a) != is_negative(b);
    if is_nan(a) || is_nan(b) {
        NAN
    } else if is_infinite(a) || is_infinite(b) {
        if is_zero(a) || is_zero(b) {
            NAN
        } else {
            with_sign(negative, INFINITY)
        }
    } else {
        with_sign(
            negative,
            round_magnitude(significand(a) * significand(b), 1, exponent(a) + exponent(b)),
        )
    }
}

/// The binary32 sum: not a number if an operand is not, or if the
/// infinities of both signs meet; an infinity if one operand is one; else
/// the exact sum, rounded. An exact sum of zero is negative only if both
/// operands are negative.
pub open spec fn sum(a: u32, b: u32) -> u32 {
    if is_nan(a) || is_nan(b) {
        NAN
    } else if is_infinite(a) {
        if is_infinite(b) && is_negative(a) != is_negative(b) {
            NAN
        } else {
            a
        }
    } else if is_infinite(b) {
        b
    } else {
        let e = if exponent(a) <= exponent(b) {
            exponent(a)
        } else {
            exponent(b)
        };
        let total = signed_significand(a) * two_to(exponent(a) - e) + signed_significand(b)
            * two_to(exponent(b) - e);
        if total == 0 {
            if is_negative(a) && is_negative(b) {
                SIGN
            } else {
                0
            }
        } else if total > 0 {
            round_magnitude(total as nat, 1, e)
        } else {
            with_sign(true, round_magnitude((-total) as nat, 1, e))
        }
    }
}

/// The binary32 difference `a - b`.
pub open spec fn difference(a: u32, b: u32) -> u32 {
    sum(a, negated(b))
}

/// The binary32 value nearest to `n / d`.
pub open spec fn quotient(n: nat, d: nat) -> u32
    recommends
        d > 0,
{
    round_magnitude(n, d, 0)
}

/// The integer nearest to zero-ward of the value, as a cast to a signed
/// 16-bit integer gives it: 0 for what is not a number, and the nearest
/// bound for what lies outside the range.
pub open spec fn truncated_i16(bits: u32) -> int {
    if is_nan(bits) {
        0
    } else {
        let whole = if is_infinite(bits) {
            32768
        } else {
            (significand(bits) * two_to(exponent(bits))) / two_to(-exponent(bits))
        };
        if is_negative(bits) {
            if whole >= 32768 {
                -32768
            } else {
                -whole
            }
        } else {
            if whole >= 32767 {
                32767
            } else {
                whole as int
            }
        }
    }
}

/// The value limited to the range from -1 to 1; what is not a number stays
/// as it is.
pub open spec fn clamped_unit(bits: u32) -> u32 {
    if is_nan(bits) || magnitude(bits) <= ONE {
        bits
    } else {
        with_sign(is_negative(bits), ONE)
    }
}

/// Puts magnitude bits under the given sign.
pub fn apply_sign(negative: bool, mag: u32) -> (r: u32)
    requires
        mag < 0x8000_0000,
    ensures
        r == with_sign(negative, mag),
{
    if negative {
        mag + SIGN
    } else {
        mag
    }
}

/// Flips the sign of a binary32 value.
pub fn negate(bits: u32) -> (r: u32)
    ensures
        r == negated(bits),
{
    apply_sign(bits < SIGN, bits % SIGN)
}

/// Limits a binary32 value to the range from -1 to 1.
pub fn clamp_unit(bits: u32) -> (r: u32)
    ensures
        r == clamped_unit(bits),
{
    let mag: u32 = bits % SIGN;
    if mag > INFINITY || mag <= ONE {
        bits
    } else {
        apply_sign(bits >= SIGN, ONE)
    }
}

/// Significand and exponent of finite magnitude bits.
fn unpack(mag: u32) -> (parts: (u64, i32))
    requires
        mag < 0x7f80_0000,
    ensures
        parts.0 == significand(mag),
        parts.1 == exponent(mag),
        parts.0 < 0x100_0000,
        -149 <= parts.1 <= 104,
        parts.1 > -149 ==> parts.0 >= 0x80_0000,
{
    if mag < 0x80_0000 {
        (mag as u64, -149)
    } else {
        ((0x80_0000 + mag % 0x80_0000) as u64, (mag / 0x80_0000) as i32 - 150)
    }
}

/// Multiplies two binary32 values.
pub fn multiply(a: u32, b: u32) -> (r: u32)
    ensures
        r == product(a, b),
{
    let mag_a: u32 = a % SIGN;
    let mag_b: u32 = b % SIGN;
    let negative: bool = (a >= SIGN) != (b >= SIGN);
    if mag_a > INFINITY || mag_b > INFINITY {
        return NAN;
    }
    if mag_a == INFINITY || mag_b == INFINITY {
        if mag_a == 0 || mag_b == 0 {
            return NAN;
        }
        return apply_sign(negative, INFINITY);
    }
    multiply_finite(a, b)
}

/// Multiplies two finite binary32 values.
fn multiply_finite(a: u32, b: u32) -> (r: u32)
    requires
        is_finite(a),
        is_finite(b),
    ensures
        r == product(a, b),
{
    let (ma, ea) = unpack(a % SIGN);
    let (mb, eb) = unpack(b % SIGN);
    proof {
        assert(magnitude(magnitude(a)) == magnitude(a));
        assert(magnitude(magnitude(b)) == magnitude(b));
        assert(ma * mb < 0x1_0000_0000_0000) by (nonlinear_arith)
            requires
                ma < 0x100_0000,
                mb < 0x100_0000,
        ;
    }
    let sig: u64 = ma * mb;
    let mag: u32 = round_pack(sig, ea + eb, false, Ghost(sig as nat), Ghost(1));
    apply_sign((a >= SIGN) != (b >= SIGN), mag)
}

/// Divides two integers, giving the nearest binary32 value.
pub fn ratio(n: u32, d: u32) -> (r: u32)
    requires
        d > 0,
    ensures
        r == quotient(n as nat, d as nat),
        r <= INFINITY,
{
    if n == 0 {
        proof {
            lemma_round_bounds(0, d as nat, 0);
        }
        return 0;
    }
    let len: u64 = bit_length(n as u64);
    proof {
        lemma2_to64();
        lemma2_to64_rest();
        if len > 32 {
            lemma_pow2_strictly_increases(32, (len - 1) as nat);
        }
    }
    let k: u64 = 61 - len;
    proof {
        // n * 2^k lies between 2^60 and 2^61
        lemma_pow2_adds(len as nat, k as nat);
        lemma_pow2_adds((len - 1) as nat, k as nat);
        let pk = pow2(k as nat);
        let hi = pow2(len as nat);
        let lo = pow2((len - 1) as nat);
        lemma_pow2_pos(k as nat);
        assert(n * pk < hi * pk) by (nonlinear_arith)
            requires
                n < hi,
                pk > 0,
        ;
        assert(lo * pk <= n * pk) by (nonlinear_arith)
            requires
                lo <= n,
                pk > 0,
        ;
        assert(hi * pk == 0x2000_0000_0000_0000);
        assert(lo * pk == 0x1000_0000_0000_0000);
        lemma_u64_shl_is_mul(n as u64, k);
    }
    let shifted: u64 = (n as u64) << k;
    let sig: u64 = shifted / (d as u64);
    let sticky: bool = shifted % (d as u64) != 0;
    proof {
        lemma_fundamental_div_mod(shifted as int, d as int);
        assert(sig >= 0x1000_0000) by (nonlinear_arith)
            requires
                shifted == d * sig + (shifted as int % d as int),
                (shifted as int % d as int) < d,
                shifted >= 0x1000_0000_0000_0000,
                0 < d < 0x1_0000_0000,
        ;
        assert(sig <= shifted) by (nonlinear_arith)
            requires
                shifted == d * sig + (shifted as int % d as int),
                (shifted as int % d as int) >= 0,
                d >= 1,
                sig >= 0,
        ;
    }
    let mag: u32 = round_pack(sig, -(k as i32), sticky, Ghost(shifted as nat), Ghost(d as nat));
    proof {
        let pk = pow2(k as nat);
        assert(two_to(-(k as int) - 0) == 1);
        assert(two_to(0 - (-(k as int))) == pk);
        assert((shifted * d) * 1 == (n * d) * pk) by (nonlinear_arith)
            requires
                shifted == n * pk,
        ;
        lemma_round_same_value(shifted as nat, d as nat, -(k as int), n as nat, d as nat, 0);
    }
    mag
}

/// Adds two binary32 values.
pub fn plus(a: u32, b: u32) -> (r: u32)
    ensures
        r == sum(a, b),
{
    let mag_a: u32 = a % SIGN;
    let mag_b: u32 = b % SIGN;
    let neg_a: bool = a >= SIGN;
    let neg_b: bool = b >= SIGN;
    if mag_a > INFINITY || mag_b > INFINITY {
        return NAN;
    }
    if mag_a == INFINITY {
        if mag_b == INFINITY && neg_a != neg_b {
            return NAN;
        }
        return a;
    }
    if mag_b == INFINITY {
        return b;
    }
    plus_finite(a, b)
}

/// Adds two finite binary32 values.
fn plus_finite(a: u32, b: u32) -> (r: u32)
    requires
        is_finite(a),
        is_finite(b),
    ensures
        r == sum(a, b),
{
    let (ma, ea) = unpack(a % SIGN);
    let (mb, eb) = unpack(b % SIGN);
    proof {
        lemma_sum_of_finite(a, b);
        assert(magnitude(magnitude(a)) == magnitude(a));
        assert(magnitude(magnitude(b)) == magnitude(b));
    }
    if ea >= eb {
        plus_ordered(ma, ea, a >= SIGN, mb, eb, b >= SIGN)
    } else {
        plus_ordered(mb, eb, b >= SIGN, ma, ea, a >= SIGN)
    }
}

/// The exact sum of `±hi × 2^gap` and `±lo`, in units of the smaller
/// operand.
spec fn exact_total(m_hi: nat, neg_hi: bool, m_lo: nat, neg_lo: bool, gap: int) -> int {
    (if neg_hi {
        -(m_hi as int)
    } else {
        m_hi as int
    }) * two_to(gap) + (if neg_lo {
        -(m_lo as int)
    } else {
        m_lo as int
    })
}

/// The rounded sum of two finite values, the first with the larger
/// exponent.
spec fn sum_ordered(m_hi: nat, e_hi: int, neg_hi: bool, m_lo: nat, e_lo: int, neg_lo: bool) -> u32 {
    let total = exact_total(m_hi, neg_hi, m_lo, neg_lo, e_hi - e_lo);
    if total == 0 {
        if neg_hi && neg_lo {
            SIGN
        } else {
            0
        }
    } else if total > 0 {
        round_magnitude(total as nat, 1, e_lo)
    } else {
        with_sign(true, round_magnitude((-total) as nat, 1, e_lo))
    }
}

/// The sum of two finite values, written from the operand with the larger
/// exponent.
proof fn lemma_sum_of_finite(a: u32, b: u32)
    requires
        is_finite(a),
        is_finite(b),
    ensures
        sum(a, b) == if exponent(a) >= exponent(b) {
            sum_ordered(
                significand(a),
                exponent(a),
                is_negative(a),
                significand(b),
                exponent(b),
                is_negative(b),
            )
        } else {
            sum_ordered(
                significand(b),
                exponent(b),
                is_negative(b),
                significand(a),
                exponent(a),
                is_negative(a),
            )
        },
{
    let ea = exponent(a);
    let eb = exponent(b);
    let sa = signed_significand(a);
    let sb = signed_significand(b);
    assert(two_to(0) == 1);
    if ea >= eb {
        let up = two_to(ea - eb);
        let total = sa * up + sb * two_to(eb - eb);
        assert(sb * 1 == sb);
        assert(total == exact_total(
            significand(a),
            is_negative(a),
            significand(b),
            is_negative(b),
            ea - eb,
        ));
    } else {
        let up = two_to(eb - ea);
        let total = sa * two_to(ea - ea) + sb * up;
        assert(sa * 1 == sa);
        assert(total == exact_total(
            significand(b),
            is_negative(b),
            significand(a),
            is_negative(a),
            eb - ea,
        ));
    }
}

fn plus_ordered(m_hi: u64, e_hi: i32, neg_hi: bool, m_lo: u64, e_lo: i32, neg_lo: bool) -> (r: u32)
    requires
        m_hi < 0x100_0000,
        m_lo < 0x100_0000,
        -149 <= e_lo <= e_hi <= 104,
        e_hi > -149 ==> m_hi >= 0x80_0000,
    ensures
        r == sum_ordered(m_hi as nat, e_hi as int, neg_hi, m_lo as nat, e_lo as int, neg_lo),
{
    if e_hi - e_lo <= 26 {
        plus_near(m_hi, e_hi, neg_hi, m_lo, e_lo, neg_lo)
    } else {
        plus_far(m_hi, e_hi, neg_hi, m_lo, e_lo, neg_lo)
    }
}

/// The sum where the exponents are close enough for the exact sum to fit a
/// machine word.
fn plus_near(m_hi: u64, e_hi: i32, neg_hi: bool, m_lo: u64, e_lo: i32, neg_lo: bool) -> (r: u32)
    requires
        m_hi < 0x100_0000,
        m_lo < 0x100_0000,
        -149 <= e_lo <= e_hi <= 104,
        e_hi - e_lo <= 26,
    ensures
        r == sum_ordered(m_hi as nat, e_hi as int, neg_hi, m_lo as nat, e_lo as int, neg_lo),
{
    let gap: i32 = e_hi - e_lo;
    let ghost p: nat = pow2(gap as nat);
    proof {
        lemma2_to64();
        lemma_pow2_pos(gap as nat);
        if gap < 26 {
            lemma_pow2_strictly_increases(gap as nat, 26);
        }
        assert(m_hi * p < 0x4_0000_0000_0000) by (nonlinear_arith)
            requires
                m_hi < 0x100_0000,
                0 < p <= 0x400_0000,
        ;
        lemma_u64_shl_is_mul(m_hi, gap as u64);
        assert(two_to(gap as int) == p);
        assert((-(m_hi as int)) * p == -(m_hi * p)) by (nonlinear_arith);
    }
    let big: u64 = m_hi << (gap as u64);
    assert(big == m_hi * p);
    proof {
        lemma_round_bounds(0, 1, e_lo as int);
    }
    let ghost total: int = exact_total(m_hi as nat, neg_hi, m_lo as nat, neg_lo, gap as int);
    if neg_hi == neg_lo {
        let whole: u64 = big + m_lo;
        assert(total == if neg_hi {
            -(whole as int)
        } else {
            whole as int
        });
        let mag: u32 = round_pack(whole, e_lo, false, Ghost(whole as nat), Ghost(1));
        apply_sign(neg_hi, mag)
    } else if big == m_lo {
        assert(total == 0);
        0
    } else if big > m_lo {
        let whole: u64 = big - m_lo;
        assert(total == if neg_hi {
            -(whole as int)
        } else {
            whole as int
        });
        let mag: u32 = round_pack(whole, e_lo, false, Ghost(whole as nat), Ghost(1));
        apply_sign(neg_hi, mag)
    } else {
        let whole: u64 = m_lo - big;
        assert(total == if neg_lo {
            -(whole as int)
        } else {
            whole as int
        });
        let mag: u32 = round_pack(whole, e_lo, false, Ghost(whole as nat), Ghost(1));
        apply_sign(neg_lo, mag)
    }
}

/// The sum where the smaller operand lies below an eighth of the larger
/// one's last place, so that it can only tip the rounding.
fn plus_far(m_hi: u64, e_hi: i32, neg_hi: bool, m_lo: u64, e_lo: i32, neg_lo: bool) -> (r: u32)
    requires
        0x80_0000 <= m_hi < 0x100_0000,
        m_lo < 0x100_0000,
        -149 <= e_lo <= e_hi <= 104,
        e_hi - e_lo > 26,
    ensures
        r == sum_ordered(m_hi as nat, e_hi as int, neg_hi, m_lo as nat, e_lo as int, neg_lo),
{
    let gap: i32 = e_hi - e_lo;
    let opposed: bool = neg_hi != neg_lo && m_lo != 0;
    let sig: u64 = if opposed {
        m_hi * 8 - 1
    } else {
        m_hi * 8
    };
    let ghost den: nat = pow2((gap - 3) as nat);
    let ghost p: nat = pow2(gap as nat);
    let ghost big: int = m_hi * p;
    let ghost num: nat = if opposed {
        (big - m_lo) as nat
    } else {
        (big + m_lo) as nat
    };
    let ghost total: int = exact_total(m_hi as nat, neg_hi, m_lo as nat, neg_lo, gap as int);
    proof {
        lemma2_to64();
        lemma_pow2_adds(3, (gap - 3) as nat);
        assert(p == 8 * den);
        if gap - 3 > 24 {
            lemma_pow2_strictly_increases(24, (gap - 3) as nat);
        }
        assert(den >= 0x100_0000);
        assert(big == (m_hi * 8) * den) by (nonlinear_arith)
            requires
                big == m_hi * p,
                p == 8 * den,
        ;
        assert(big >= 0x100_0000) by (nonlinear_arith)
            requires
                big == (m_hi * 8) * den,
                m_hi >= 1,
                den >= 0x100_0000,
        ;
        if opposed {
            assert(num == (m_hi * 8 - 1) * den + (den - m_lo)) by (nonlinear_arith)
                requires
                    num == big - m_lo,
                    big == (m_hi * 8) * den,
            ;
            lemma_fundamental_div_mod_converse(num as int, den as int, m_hi * 8 - 1, den - m_lo);
        } else {
            lemma_fundamental_div_mod_converse(num as int, den as int, m_hi * 8, m_lo as int);
        }
        assert(two_to(gap as int) == p);
        assert((-(m_hi as int)) * p == -big) by (nonlinear_arith)
            requires
                big == m_hi * p,
        ;
        assert(total == if neg_hi {
            -(num as int)
        } else {
            num as int
        });
    }
    let mag: u32 = round_pack(sig, e_hi - 3, m_lo != 0, Ghost(num), Ghost(den));
    proof {
        assert(two_to((e_hi - 3) - e_lo) == den);
        assert(two_to(e_lo - (e_hi - 3)) == 1);
        assert((num * 1) * den == (num * den) * 1) by (nonlinear_arith);
        lemma_round_same_value(num, den, (e_hi - 3) as int, num, 1, e_lo as int);
    }
    apply_sign(neg_hi, mag)
}

/// Subtracts two binary32 values.
pub fn minus(a: u32, b: u32) -> (r: u32)
    ensures
        r == difference(a, b),
{
    plus(a, negate(b))
}

/// Converts a binary32 value to a signed 16-bit integer, dropping the
/// fraction and saturating at the bounds.
pub fn truncate_i16(bits: u32) -> (r: i16)
    ensures
        r == truncated_i16(bits),
{
    let mag: u32 = bits % SIGN;
    let negative: bool = bits >= SIGN;
    if mag > INFINITY {
        return 0;
    }
    // At 2^15 and above the value is out of range whatever its fraction.
    if mag >= 0x4700_0000 {
        proof {
            lemma_whole_part_large(bits);
        }
        return if negative {
            -32768
        } else {
            32767
        };
    }
    let (m, e) = unpack(mag);
    let whole: u64 = if e <= -24 {
        proof {
            lemma_whole_part_small(bits);
        }
        0
    } else {
        // -23 <= e <= -9
        let down: u64 = (0 - e) as u64;
        proof {
            lemma2_to64();
            lemma_u64_shr_is_div(m, down);
            assert(two_to(e as int) == 1);
            assert(two_to(-(e as int)) == pow2(down as nat));
            assert(m * 1 == m);
            lemma_whole_part_bounded(m as nat, down as nat);
        }
        m >> down
    };
    if negative {
        -(whole as i16)
    } else {
        whole as i16
    }
}

proof fn lemma_whole_part_large(bits: u32)
    requires
        0x4700_0000 <= magnitude(bits) <= 0x7f80_0000,
    ensures
        is_infinite(bits) || (significand(bits) * two_to(exponent(bits))) / two_to(
            -exponent(bits),
        ) >= 32768,
{
    if !is_infinite(bits) {
        let m = significand(bits);
        let e = exponent(bits);
        lemma2_to64();
        assert(e >= -8);
        assert(m >= 0x80_0000);
        if e <= 0 {
            let p = pow2((-e) as nat);
            assert(two_to(-e) == p) by {
                if e == 0 {
                }
            }
            assert(two_to(e) == 1);
            if -e < 8 {
                lemma_pow2_strictly_increases((-e) as nat, 8);
            }
            lemma_pow2_pos((-e) as nat);
            assert(m * 1 == m);
            assert(m / p >= 32768) by (nonlinear_arith)
                requires
                    m >= 0x80_0000,
                    0 < p <= 256,
            ;
        } else {
            let p = pow2(e as nat);
            assert(two_to(e) == p);
            assert(two_to(-e) == 1);
            lemma_pow2_pos(e as nat);
            assert(m * p >= 0x80_0000) by (nonlinear_arith)
                requires
                    m >= 0x80_0000,
                    p >= 1,
            ;
        }
    }
}

proof fn lemma_whole_part_small(bits: u32)
    requires
        is_finite(bits),
        exponent(bits) <= -24,
    ensures
        (significand(bits) * two_to(exponent(bits))) / two_to(-exponent(bits)) == 0,
{
    let m = significand(bits);
    let e = exponent(bits);
    lemma2_to64();
    let p = pow2((-e) as nat);
    assert(two_to(-e) == p);
    assert(two_to(e) == 1);
    if -e > 24 {
        lemma_pow2_strictly_increases(24, (-e) as nat);
    }
    assert(m * 1 == m);
    assert(m < p);
    assert(m / p == 0) by (nonlinear_arith)
        requires
            0 <= m < p,
    ;
}

proof fn lemma_whole_part_bounded(m: nat, down: nat)
    requires
        m < 0x100_0000,
        9 <= down <= 23,
    ensures
        m / pow2(down) < 32768,
{
    lemma2_to64();
    let p = pow2(down);
    if down > 9 {
        lemma_pow2_strictly_increases(9, down);
    }
    assert(m / p < 32768) by (nonlinear_arith)
        requires
            m < 0x100_0000,
            p >= 512,
    ;
}

/// A truncated value fits a signed 16-bit integer.
pub proof fn lemma_truncated_range(bits: u32)
    ensures
        -32768 <= truncated_i16(bits) <= 32767,
{
    if is_finite(bits) {
        let n = significand(bits) * two_to(exponent(bits));
        let d = two_to(-exponent(bits));
        lemma_two_to_positive(-exponent(bits));
        assert(n / d >= 0) by (nonlinear_arith)
            requires
                n >= 0,
                d > 0,
        ;
    }
}

/// Rounding the value of a finite pattern gives the pattern back: every
/// finite pattern is its own nearest value.
pub proof fn law_rounding_keeps_patterns(bits: u32)
    requires
        is_finite(bits),
    ensures
        round_magnitude(significand(bits), 1, exponent(bits)) == magnitude(bits),
{
    let m = significand(bits);
    let e = exponent(bits);
    let mag = magnitude(bits);
    reveal(round_magnitude);
    lemma2_to64();
    if m > 0 {
        lemma_binade_exists(m, 1);
        let b = binade(m, 1);
        // the binade of an integer below 2^24 is below 24, and that of a
        // normal significand is 23
        assert(b <= 23) by {
            if b > 23 {
                let p = pow2(b as nat);
                if b > 24 {
                    lemma_pow2_strictly_increases(24, b as nat);
                }
                assert(p >= 0x100_0000);
                assert(two_to(b) == p);
                assert(two_to(-b) == 1);
                assert(m * 1 == m);
                assert(1 * p == p);
                assert(m < 0x100_0000);
            }
        }
        if mag >= 0x80_0000 {
            assert(in_binade(m, 1, 23)) by {
                assert(two_to(23) == 0x80_0000);
                assert(two_to(-23) == 1);
                assert(m * 1 == m);
            }
            lemma_binade_unique(m, 1, 23, b);
        }
        let q = if b + e - 23 > -149 {
            b + e - 23
        } else {
            -149
        };
        assert(q == e);
        assert(two_to(e - q) == 1);
        assert(two_to(q - e) == 1);
        assert(m * 1 == m);
        lemma_round_exact(m, 1);
        assert(mag / 0x80_0000 * 0x80_0000 + mag % 0x80_0000 == mag);
    }
}

/// Multiplying by 1 changes no finite value, from either side.
pub proof fn law_one_is_neutral(bits: u32)
    requires
        is_finite(bits),
    ensures
        product(bits, ONE) == bits,
        product(ONE, bits) == bits,
{
    let m = significand(bits);
    let e = exponent(bits);
    lemma2_to64();
    assert(significand(ONE) == 0x80_0000 && exponent(ONE) == -23 && !is_negative(ONE));
    law_rounding_keeps_patterns(bits);
    assert(0x80_0000 * m == m * 0x80_0000) by (nonlinear_arith);
    if m > 0 {
        let scaled = m * 0x80_0000;
        assert(two_to((e - 23) - e) == 1);
        assert(two_to(e - (e - 23)) == 0x80_0000);
        assert((scaled * 1) * 1 == (m * 1) * 0x80_0000) by (nonlinear_arith)
            requires
                scaled == m * 0x80_0000,
        ;
        lemma_round_same_value(scaled, 1, e - 23, m, 1, e);
    } else {
        assert(m * 0x80_0000 == 0);
        lemma_round_bounds(0, 1, e - 23);
    }
    assert(with_sign(is_negative(bits), magnitude(bits)) == bits);
    assert(e + (-23) == e - 23);
    assert(-23 + e == e - 23);
}

/// The order of the factors does not change a product.
pub proof fn law_product_commutes(a: u32, b: u32)
    ensures
        product(a, b) == product(b, a),
{
    assert(significand(a) * significand(b) == significand(b) * significand(a)) by (nonlinear_arith);
}

/// The order of the terms does not change a sum.
pub proof fn law_sum_commutes(a: u32, b: u32)
    ensures
        sum(a, b) == sum(b, a),
{
}

} // verus!
