//! Conversion of a mono recording from one sample rate to another.
//!
//! The band-limited conversion is the caller's to compute; this module says
//! how to ask for it, and converts by linear interpolation where it is not
//! to be had.

use crate::binary32::{difference, minus, multiply, plus, product, quotient, ratio, sum, ONE};
use vstd::prelude::*;

verus! {

/// How a band-limited resampler interpolates between the entries of its
/// sinc table.
#[derive(Clone, Copy, Debug, PartialEq, Eq, Structural)]
pub enum SincInterpolation {
    Nearest,
    Linear,
    Quadratic,
    Cubic,
}

/// The window a band-limited resampler shapes its sinc kernel with.
#[derive(Clone, Copy, Debug, PartialEq, Eq, Structural)]
pub enum SincWindow {
    Blackman,
    Blackman2,
    BlackmanHarris,
    BlackmanHarris2,
    Hann,
    Hann2,
}

/// A request for a band-limited conversion of one whole recording.
#[derive(Clone, Copy, Debug, PartialEq, Eq, Structural)]
pub struct SincRequest {
    /// The rate of the input, in hertz.
    pub from_rate: u32,
    /// The rate of the output, in hertz; the ratio is `to_rate / from_rate`.
    pub to_rate: u32,
    /// How far the ratio may later move, relative to itself.
    pub max_relative_ratio: u32,
    /// Length of the sinc kernel, in samples.
    pub sinc_len: usize,
    /// Cutoff frequency in hundredths of the Nyquist frequency.
    pub cutoff_percent: u32,
    /// How finely the sinc table is oversampled.
    pub oversampling_factor: usize,
    pub interpolation: SincInterpolation,
    pub window: SincWindow,
    /// Number of input samples, all taken as one chunk.
    pub chunk_size: usize,
    /// Number of channels.
    pub channels: usize,
}

/// The request for a recording of `len` samples: a wide kernel, a cutoff
/// close to the Nyquist frequency, a finely oversampled table and a
/// Blackman-Harris window, on one channel and one chunk.
pub open spec fn sinc_profile(len: usize, from_rate: u32, to_rate: u32) -> SincRequest {
    SincRequest {
        from_rate,
        to_rate,
        max_relative_ratio: 2,
        sinc_len: 256,
        cutoff_percent: 95,
        oversampling_factor: 256,
        interpolation: SincInterpolation::Linear,
        window: SincWindow::BlackmanHarris2,
        chunk_size: len,
        channels: 1,
    }
}

/// The band-limited conversion to ask for, if any: none where the rates
/// are equal.
pub fn sinc_request(len: usize, from_rate: u32, to_rate: u32) -> (request: Option<SincRequest>)
    ensures
        request == if from_rate == to_rate {
            None
        } else {
            Some(sinc_profile(len, from_rate, to_rate))
        },
{
    if from_rate == to_rate {
        None
    } else {
        Some(
            SincRequest {
                from_rate,
                to_rate,
                max_relative_ratio: 2,
                sinc_len: 256,
                cutoff_percent: 95,
                oversampling_factor: 256,
                interpolation: SincInterpolation::Linear,
                window: SincWindow::BlackmanHarris2,
                chunk_size: len,
                channels: 1,
            },
        )
    }
}

/// The value a fraction `part / whole` of the way from `a` to `b`, computed
/// in binary32 arithmetic as `a × (1 - w) + b × w` with `w` the fraction.
pub open spec fn interpolated(a: u32, b: u32, part: nat, whole: nat) -> u32
    recommends
        whole > 0,
{
    let weight = quotient(part, whole);
    sum(product(a, difference(ONE, weight)), product(b, weight))
}

/// The number of samples linear interpolation produces: the input length
/// scaled by `to_rate / from_rate` and rounded down, but at least one
/// sample for an input that is not empty.
pub open spec fn linear_len(len: nat, from_rate: nat, to_rate: nat) -> nat
    recommends
        from_rate > 0,
{
    if len == 0 {
        0
    } else if len * to_rate / from_rate == 0 {
        1
    } else {
        len * to_rate / from_rate
    }
}

/// Output sample `i` of linear interpolation: it lies at source position
/// `i × from_rate / to_rate`, between the two samples that bracket the
/// position, or on the last sample where there is none after it.
pub open spec fn linear_sample(data: Seq<u32>, i: int, from_rate: nat, to_rate: nat) -> u32
    recommends
        to_rate > 0,
{
    let position = i * from_rate;
    let index = position / to_rate as int;
    let part = (position % to_rate as int) as nat;
    if index + 1 < data.len() {
        interpolated(data[index], data[index + 1], part, to_rate)
    } else {
        data[index]
    }
}

/// The recording converted by linear interpolation.
pub open spec fn linear_resample(data: Seq<u32>, from_rate: nat, to_rate: nat) -> Seq<u32>
    recommends
        from_rate > 0,
        to_rate > 0,
{
    Seq::new(
        linear_len(data.len(), from_rate, to_rate),
        |i: int| linear_sample(data, i, from_rate, to_rate),
    )
}

/// The recording at the new rate: unchanged where the rates are equal; else
/// the band-limited conversion where the caller has one, and linear
/// interpolation where it has none.
pub open spec fn resampled(
    data: Seq<u32>,
    from_rate: u32,
    to_rate: u32,
    primary: Option<Seq<u32>>,
) -> Seq<u32> {
    if from_rate == to_rate {
        data
    } else {
        match primary {
            Some(converted) => converted,
            None => linear_resample(data, from_rate as nat, to_rate as nat),
        }
    }
}

/// Whether the length of the linear interpolation of `len` samples fits a
/// machine word.
pub fn linear_len_fits(len: usize, from_rate: u32, to_rate: u32) -> (fits: bool)
    requires
        from_rate > 0,
    ensures
        fits == (linear_len(len as nat, from_rate as nat, to_rate as nat) <= usize::MAX),
{
    assert(len * to_rate <= 0xffff_ffff_ffff_ffff * 0xffff_ffff) by (nonlinear_arith)
        requires
            len <= 0xffff_ffff_ffff_ffff,
            to_rate <= 0xffff_ffff,
    ;
    let scaled: u128 = (len as u128) * (to_rate as u128) / (from_rate as u128);
    assert(scaled == len as nat * to_rate as nat / from_rate as nat);
    if len == 0 {
        assert(0 * to_rate == 0);
        assert(scaled == 0);
    }
    scaled <= usize::MAX as u128
}

/// Interpolates between two samples.
pub fn interpolate(a: u32, b: u32, part: u32, whole: u32) -> (r: u32)
    requires
        whole > 0,
    ensures
        r == interpolated(a, b, part as nat, whole as nat),
{
    let weight: u32 = ratio(part, whole);
    plus(multiply(a, minus(ONE, weight)), multiply(b, weight))
}

/// Converts a recording by linear interpolation. Towards a higher rate the
/// length of the result must fit a machine word; towards a lower rate it
/// always does.
pub fn resample_simple(data: &Vec<u32>, from_rate: u32, to_rate: u32) -> (out: Vec<u32>)
    requires
        from_rate > 0,
        to_rate > 0,
        to_rate > from_rate ==> linear_len(data@.len(), from_rate as nat, to_rate as nat)
            <= usize::MAX,
    ensures
        out@ == linear_resample(data@, from_rate as nat, to_rate as nat),
{
    let len: usize = data.len();
    proof {
        if to_rate <= from_rate {
            lemma_lower_rate_is_no_longer(len as nat, from_rate as nat, to_rate as nat);
        }
    }
    let mut out: Vec<u32> = Vec::new();
    if len == 0 {
        assert(out@ =~= linear_resample(data@, from_rate as nat, to_rate as nat));
        return out;
    }
    assert(len * to_rate <= 0xffff_ffff_ffff_ffff * 0xffff_ffff) by (nonlinear_arith)
        requires
            len <= 0xffff_ffff_ffff_ffff,
            to_rate <= 0xffff_ffff,
    ;
    let scaled: u128 = (len as u128) * (to_rate as u128) / (from_rate as u128);
    let new_len: usize = if scaled == 0 {
        1
    } else {
        scaled as usize
    };
    let mut i: usize = 0;
    while i < new_len
        invariant
            i <= new_len,
            len == data@.len(),
            len > 0,
            from_rate > 0,
            to_rate > 0,
            new_len == linear_len(len as nat, from_rate as nat, to_rate as nat),
            out@.len() == i,
            forall|k: int|
                0 <= k < i ==> out@[k] == linear_sample(data@, k, from_rate as nat, to_rate as nat),
        decreases new_len - i,
    {
        assert(i * from_rate <= 0xffff_ffff_ffff_ffff * 0xffff_ffff) by (nonlinear_arith)
            requires
                i <= 0xffff_ffff_ffff_ffff,
                from_rate <= 0xffff_ffff,
        ;
        let position: u128 = (i as u128) * (from_rate as u128);
        let index_wide: u128 = position / (to_rate as u128);
        let part: u32 = (position % (to_rate as u128)) as u32;
        proof {
            lemma_linear_index_in_range(len as nat, from_rate as nat, to_rate as nat, i as nat);
        }
        let index: usize = index_wide as usize;
        let sample: u32 = if index + 1 < len {
            interpolate(data[index], data[index + 1], part, to_rate)
        } else {
            data[index]
        };
        out.push(sample);
        i = i + 1;
    }
    assert(out@ =~= linear_resample(data@, from_rate as nat, to_rate as nat));
    out
}

/// Towards a lower or equal rate linear interpolation gives no more samples
/// than it takes.
pub proof fn lemma_lower_rate_is_no_longer(len: nat, from_rate: nat, to_rate: nat)
    requires
        0 < to_rate <= from_rate,
    ensures
        linear_len(len, from_rate, to_rate) <= len,
{
    let total = len * to_rate;
    let whole = len * from_rate;
    assert(total <= whole) by (nonlinear_arith)
        requires
            total == len * to_rate,
            whole == len * from_rate,
            to_rate <= from_rate,
    ;
    vstd::arithmetic::div_mod::lemma_div_is_ordered(total as int, whole as int, from_rate as int);
    vstd::arithmetic::div_mod::lemma_fundamental_div_mod_converse(
        whole as int,
        from_rate as int,
        len as int,
        0,
    );
}

/// Every output position of linear interpolation lies on the input.
pub proof fn lemma_linear_index_in_range(len: nat, from_rate: nat, to_rate: nat, i: nat)
    requires
        len > 0,
        from_rate > 0,
        to_rate > 0,
        i < linear_len(len, from_rate, to_rate),
    ensures
        (i * from_rate) / to_rate < len,
{
    let scaled = len * to_rate / from_rate;
    if i == 0 {
        assert(0 * from_rate == 0);
        assert(0int / to_rate as int == 0);
    } else {
        // i < scaled, so (i + 1) * from_rate <= scaled * from_rate <= len * to_rate
        assert(i + 1 <= scaled);
        vstd::arithmetic::div_mod::lemma_fundamental_div_mod(
            (len * to_rate) as int,
            from_rate as int,
        );
        let total = len * to_rate;
        assert(scaled * from_rate <= total) by (nonlinear_arith)
            requires
                total == from_rate * scaled + (total as int % from_rate as int),
                (total as int % from_rate as int) >= 0,
        ;
        assert(i * from_rate < len * to_rate) by (nonlinear_arith)
            requires
                i + 1 <= scaled,
                scaled * from_rate <= total,
                total == len * to_rate,
                from_rate > 0,
        ;
        let position = i * from_rate;
        vstd::arithmetic::div_mod::lemma_fundamental_div_mod(position as int, to_rate as int);
        let index = position / to_rate;
        assert(index < len) by (nonlinear_arith)
            requires
                position == to_rate * index + (position as int % to_rate as int),
                (position as int % to_rate as int) >= 0,
                position < len * to_rate,
                to_rate > 0,
        ;
    }
}

/// Brings a recording to the new rate, with the outcome of the
/// band-limited conversion where one was asked for: `None` where it failed.
pub fn resample(data: &Vec<u32>, from_rate: u32, to_rate: u32, primary: Option<Vec<u32>>) -> (out:
    Vec<u32>)
    requires
        from_rate != to_rate && primary is None ==> {
            &&& from_rate > 0
            &&& to_rate > 0
            &&& to_rate > from_rate ==> linear_len(
                data@.len(),
                from_rate as nat,
                to_rate as nat,
            ) <= usize::MAX
        },
    ensures
        out@ == resampled(
            data@,
            from_rate,
            to_rate,
            match primary {
                Some(converted) => Some(converted@),
                None => None,
            },
        ),
{
    if from_rate == to_rate {
        data.clone()
    } else {
        match primary {
            Some(converted) => converted,
            None => resample_simple(data, from_rate, to_rate),
        }
    }
}

/// Where the rates are equal a recording stays as it is, whatever the
/// band-limited conversion gave.
pub proof fn law_equal_rates_identity(data: Seq<u32>, rate: u32, primary: Option<Seq<u32>>)
    ensures
        resampled(data, rate, rate, primary) == data,
{
}

/// Linear interpolation of a recording that is not empty gives at least one
/// sample, and as many as the input has, scaled by `to_rate / from_rate`, to
/// within one sample.
pub proof fn law_linear_length(data: Seq<u32>, from_rate: nat, to_rate: nat)
    requires
        data.len() > 0,
        from_rate > 0,
        to_rate > 0,
    ensures
        linear_resample(data, from_rate, to_rate).len() >= 1,
        (linear_resample(data, from_rate, to_rate).len() - 1) * from_rate <= data.len() * to_rate,
        data.len() * to_rate < (linear_resample(data, from_rate, to_rate).len() + 1) * from_rate,
{
    let total = data.len() * to_rate;
    let scaled = total / from_rate;
    let n = linear_resample(data, from_rate, to_rate).len();
    vstd::arithmetic::div_mod::lemma_fundamental_div_mod(total as int, from_rate as int);
    let rest = total as int % from_rate as int;
    assert(0 <= rest < from_rate);
    assert(total == from_rate * scaled + rest);
    if scaled == 0 {
        assert(n == 1);
        assert(from_rate * 0 == 0);
        assert((n - 1) * from_rate == 0) by (nonlinear_arith)
            requires
                n == 1,
        ;
        assert((n + 1) * from_rate == 2 * from_rate) by (nonlinear_arith)
            requires
                n == 1,
        ;
    } else {
        assert(n == scaled);
        assert((n - 1) * from_rate <= total) by (nonlinear_arith)
            requires
                total == from_rate * n + rest,
                rest >= 0,
                from_rate > 0,
        ;
        assert(total < (n + 1) * from_rate) by (nonlinear_arith)
            requires
                total == from_rate * n + rest,
                rest < from_rate,
        ;
    }
}

/// Where the band-limited conversion failed, a recording that is not empty
/// is still converted: by linear interpolation, to at least one sample and
/// to a length in proportion.
pub proof fn law_fallback_never_empty(data: Seq<u32>, from_rate: u32, to_rate: u32)
    requires
        data.len() > 0,
        from_rate > 0,
        to_rate > 0,
        from_rate != to_rate,
    ensures
        resampled(data, from_rate, to_rate, None) == linear_resample(
            data,
            from_rate as nat,
            to_rate as nat,
        ),
        resampled(data, from_rate, to_rate, None).len() >= 1,
        (resampled(data, from_rate, to_rate, None).len() - 1) * from_rate <= data.len() * to_rate,
        data.len() * to_rate < (resampled(data, from_rate, to_rate, None).len() + 1) * from_rate,
{
    law_linear_length(data, from_rate as nat, to_rate as nat);
}

} // verus!
