//! Encoding of normalized samples as signed 16-bit little-endian PCM.

use crate::binary32::rounding::{
    binade,
    lemma_binade_exists,
    lemma_round_below,
    lemma_round_bounds,
    lemma_rounded_significand_bound,
    round_half_even,
    round_magnitude,
    two_to,
};
use crate::binary32::{
    clamp_unit,
    clamped_unit,
    exponent,
    is_infinite,
    is_nan,
    is_negative,
    law_one_is_neutral,
    lemma_truncated_range,
    magnitude,
    multiply,
    product,
    significand,
    truncate_i16,
    truncated_i16,
    with_sign,
    ONE,
};
use vstd::arithmetic::power2::{
    lemma2_to64,
    lemma2_to64_rest,
    lemma_pow2_pos,
    lemma_pow2_strictly_increases,
    pow2,
};
use vstd::prelude::*;

verus! {

/// The binary32 pattern of 32767, the largest signed 16-bit value.
pub const FULL_SCALE: u32 = 0x46ff_fe00;

/// The 16-bit amplitude of a sample: the sample is limited to the range
/// from -1 to 1, multiplied by 32767 in binary32 arithmetic, and what is
/// left of the decimal point is kept.
pub open spec fn quantized(sample: u32) -> int {
    truncated_i16(product(clamped_unit(sample), FULL_SCALE))
}

/// The two bytes of a signed 16-bit value, low byte first.
pub open spec fn le_bytes(value: int) -> Seq<u8>
    recommends
        -32768 <= value <= 32767,
{
    let word = if value < 0 {
        value + 65536
    } else {
        value
    };
    seq![(word % 256) as u8, (word / 256) as u8]
}

/// The signed 16-bit value that two bytes, low byte first, stand for.
pub open spec fn i16_from_le(low: u8, high: u8) -> int {
    let word = low + 256 * high;
    if word >= 32768 {
        word - 65536
    } else {
        word
    }
}

/// The PCM stream of a sample sequence: the two bytes of each sample's
/// amplitude, in the order of the samples.
pub open spec fn pcm_bytes(samples: Seq<u32>) -> Seq<u8> {
    Seq::new(2 * samples.len(), |i: int| le_bytes(quantized(samples[i / 2]))[i % 2])
}

/// The 16-bit amplitude of a sample.
pub fn quantize(sample: u32) -> (amplitude: i16)
    ensures
        amplitude == quantized(sample),
{
    truncate_i16(multiply(clamp_unit(sample), FULL_SCALE))
}

/// Encodes samples as headerless signed 16-bit little-endian PCM.
pub fn create_pcm(samples: &Vec<u32>) -> (bytes: Vec<u8>)
    ensures
        bytes@ == pcm_bytes(samples@),
        bytes@.len() == 2 * samples@.len(),
{
    let mut bytes: Vec<u8> = Vec::new();
    let mut i: usize = 0;
    while i < samples.len()
        invariant
            i <= samples.len(),
            bytes@ == pcm_bytes(samples@.take(i as int)),
        decreases samples.len() - i,
    {
        let amplitude: i16 = quantize(samples[i]);
        let word: u16 = if amplitude < 0 {
            (amplitude as i32 + 65536) as u16
        } else {
            amplitude as u16
        };
        bytes.push((word % 256) as u8);
        bytes.push((word / 256) as u8);
        proof {
            let before = samples@.take(i as int);
            let after = samples@.take(i + 1);
            assert(after =~= before.push(samples@[i as int]));
            assert(bytes@ =~= pcm_bytes(after)) by {
                assert forall|k: int| 0 <= k < 2 * before.len() implies #[trigger] pcm_bytes(
                    after,
                )[k] == pcm_bytes(before)[k] by {
                    assert(after[k / 2] == before[k / 2]);
                }
            }
        }
        i = i + 1;
    }
    assert(samples@.take(samples.len() as int) =~= samples@);
    bytes
}

/// Decoding the PCM stream as signed 16-bit little-endian words gives back
/// each sample's amplitude, and the stream is twice as long as the input.
pub proof fn law_pcm_round_trip(samples: Seq<u32>, i: int)
    requires
        0 <= i < samples.len(),
    ensures
        pcm_bytes(samples).len() == 2 * samples.len(),
        i16_from_le(pcm_bytes(samples)[2 * i], pcm_bytes(samples)[2 * i + 1]) == quantized(
            samples[i],
        ),
{
    let value = quantized(samples[i]);
    lemma_truncated_range(product(clamped_unit(samples[i]), FULL_SCALE));
    assert((2 * i) / 2 == i && (2 * i) % 2 == 0);
    assert((2 * i + 1) / 2 == i && (2 * i + 1) % 2 == 1);
}

/// A sample beyond the range from -1 to 1 is encoded as the bound it lies
/// beyond.
pub proof fn law_out_of_range_clamps(sample: u32)
    requires
        !is_nan(sample),
        magnitude(sample) > ONE,
    ensures
        quantized(sample) == quantized(
            with_sign(is_negative(sample), ONE),
        ),
{
}

/// Silence is encoded as the amplitude 0, the value 1 as the largest
/// amplitude 32767, and the value -1 as its negative.
pub proof fn law_reference_amplitudes()
    ensures
        quantized(0) == 0,
        quantized(ONE) == 32767,
        quantized(with_sign(true, ONE)) == -32767,
        le_bytes(quantized(0)) == seq![0x00u8, 0x00u8],
        le_bytes(quantized(ONE)) == seq![0xffu8, 0x7fu8],
{
    lemma2_to64();
    law_one_is_neutral(FULL_SCALE);
    // silence
    assert(clamped_unit(0) == 0);
    assert(significand(0) == 0);
    assert(0 * significand(FULL_SCALE) == 0);
    lemma_round_bounds(
        0,
        1,
        exponent(0) + exponent(FULL_SCALE),
    );
    assert(product(0, FULL_SCALE) == 0);
    assert(exponent(0) == -149);
    assert(0 * two_to(-149) == 0);
    lemma_pow2_pos(149);
    assert(0int / two_to(149) as int == 0) by (nonlinear_arith)
        requires
            two_to(149) > 0,
    ;
    assert(truncated_i16(0) == 0);
    // full scale: the significand 0xfffe00 at exponent -9
    assert(significand(FULL_SCALE) == 0xff_fe00);
    assert(exponent(FULL_SCALE) == -9);
    assert(two_to(9) == 512);
    assert(two_to(-9) == 1);
    assert(clamped_unit(ONE) == ONE);
    assert(product(ONE, FULL_SCALE) == FULL_SCALE);
    assert(0xff_fe00 * 1 == 0xff_fe00);
    assert(0xff_fe00int / 512 == 32767);
    assert(!is_nan(FULL_SCALE) && !is_infinite(FULL_SCALE));
    assert(truncated_i16(FULL_SCALE) == 32767);
    let minus_one = with_sign(true, ONE);
    assert(clamped_unit(minus_one) == minus_one);
    let minus_full = with_sign(true, FULL_SCALE);
    assert(significand(minus_one) == 0x80_0000);
    assert(exponent(minus_one) == -23);
    assert(product(minus_one, FULL_SCALE) == minus_full);
    assert(significand(minus_full) == 0xff_fe00);
    assert(exponent(minus_full) == -9);
    assert(!is_nan(minus_full) && !is_infinite(minus_full));
    assert(is_negative(minus_full));
    assert(truncated_i16(minus_full) == -32767);
    assert(le_bytes(0) =~= seq![0x00u8, 0x00u8]);
    assert(le_bytes(32767) =~= seq![0xffu8, 0x7fu8]);
}

/// A value of magnitude at most 1, multiplied by 32767, has a magnitude of
/// at most 32767.
proof fn lemma_scaled_within_full_scale(bits: u32)
    requires
        magnitude(bits) <= ONE,
    ensures
        magnitude(product(bits, FULL_SCALE)) <= FULL_SCALE,
{
    let m = significand(bits);
    let e = exponent(bits);
    let scale: nat = 0xff_fe00;
    lemma2_to64();
    lemma2_to64_rest();
    assert(significand(FULL_SCALE) == scale);
    assert(exponent(FULL_SCALE) == -9);
    if magnitude(bits) == ONE {
        law_one_is_neutral(FULL_SCALE);
        assert(m == 0x80_0000 && e == -23);
        assert(significand(ONE) == 0x80_0000);
        assert(exponent(ONE) == -23);
    } else if m == 0 {
        assert(0 * scale == 0);
        lemma_round_bounds(0, 1, e + (-9));
    } else {
        // below 1: the exponent is at most -24
        assert(e <= -24);
        assert(m < 0x100_0000);
        let num = m * scale;
        let exp = e + (-9);
        assert(0 < num && num < 0x1_0000_0000_0000) by (nonlinear_arith)
            requires
                num == m * scale,
                0 < m < 0x100_0000,
                scale == 0xff_fe00,
        ;
        reveal(round_magnitude);
        lemma_binade_exists(num, 1);
        let b = binade(num, 1);
        // the product has at most 48 bits
        assert(b <= 47) by {
            if b >= 48 {
                if b > 48 {
                    lemma_pow2_strictly_increases(48, b as nat);
                }
                assert(two_to(b) >= 0x1_0000_0000_0000);
                assert(two_to(-b) == 1);
                assert(num * 1 == num);
                assert(1 * two_to(b) == two_to(b));
            }
        }
        let q = if b + exp - 23 > -149 {
            b + exp - 23
        } else {
            -149
        };
        assert(q <= -9);
        let rounded = round_half_even(
            num * two_to(exp - q),
            1 * two_to(q - exp),
        );
        lemma_rounded_significand_bound(num, 1, exp, q);
        if q == -9 {
            // the spacing is that of 32767 itself: the significand stays
            // below that of 32767, because the value does
            let down = pow2((-e) as nat);
            if -e > 24 {
                lemma_pow2_strictly_increases(24, (-e) as nat);
            }
            assert(down >= 0x100_0000);
            assert(two_to(exp - q) == 1);
            assert(two_to(q - exp) == down);
            assert(num * 1 == num);
            assert(1 * down == down);
            assert(num <= scale * down) by (nonlinear_arith)
                requires
                    num == m * scale,
                    m < down,
            ;
            lemma_round_below(num, down, scale);
            assert(rounded <= scale);
        }
        assert((q + 149) * 0x80_0000 + rounded <= FULL_SCALE);
    }
}

/// No amplitude leaves the range from -32767 to 32767.
pub proof fn law_amplitude_range(sample: u32)
    ensures
        -32767 <= quantized(sample) <= 32767,
{
    let limited = clamped_unit(sample);
    let scaled = product(limited, FULL_SCALE);
    if !is_nan(limited) {
        lemma_scaled_within_full_scale(limited);
        let mag = magnitude(scaled);
        let m = significand(scaled);
        let e = exponent(scaled);
        lemma2_to64();
        assert(mag <= FULL_SCALE);
        assert(!is_nan(scaled) && !is_infinite(scaled));
        let whole: int = (m * two_to(e)) as int / two_to(-e) as int;
        assert(e <= -9);
        let down = pow2((-e) as nat);
        assert(two_to(e) == 1);
        assert(two_to(-e) == down);
        assert(m * 1 == m);
        if e == -9 {
            assert(m <= 0xff_fe00);
            assert(down == 512);
            assert(m as int / 512 <= 32767);
        } else {
            if -e > 10 {
                lemma_pow2_strictly_increases(10, (-e) as nat);
            }
            assert(down >= 1024);
            assert(m as int / down as int <= 32767) by (nonlinear_arith)
                requires
                    m < 0x100_0000,
                    down >= 1024,
            ;
        }
        assert(0 <= whole <= 32767) by {
            lemma_truncated_range(scaled);
        }
    } else {
        assert(is_nan(scaled));
    }
}

} // verus!
