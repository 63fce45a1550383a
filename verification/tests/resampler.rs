use voice_capture::resampler::{
    interpolate, linear_len_fits, resample, resample_simple, sinc_request,
};

fn bits(values: &[f32]) -> Vec<u32> {
    values.iter().map(|v| v.to_bits()).collect()
}

fn floats(patterns: &[u32]) -> Vec<f32> {
    patterns.iter().map(|b| f32::from_bits(*b)).collect()
}

/// Linear interpolation at exact positions, in hardware arithmetic.
fn reference(data: &[f32], from_rate: u32, to_rate: u32) -> Vec<f32> {
    if data.is_empty() {
        return Vec::new();
    }
    let scaled = data.len() as u128 * to_rate as u128 / from_rate as u128;
    let new_len = scaled.max(1) as usize;
    (0..new_len)
        .map(|i| {
            let position = i as u128 * from_rate as u128;
            let index = (position / to_rate as u128) as usize;
            let part = (position % to_rate as u128) as u32;
            if index + 1 < data.len() {
                let weight = part as f32 / to_rate as f32;
                data[index] * (1.0 - weight) + data[index + 1] * weight
            } else {
                data[index]
            }
        })
        .collect()
}

fn sine(len: usize, rate: u32) -> Vec<f32> {
    (0..len)
        .map(|i| (2.0 * std::f32::consts::PI * 440.0 * i as f32 / rate as f32).sin() * 0.8)
        .collect()
}

#[test]
fn equal_rates_return_the_input() {
    let data = bits(&[0.1, -0.2, 0.3, f32::NAN, f32::INFINITY]);
    for rate in [1, 8000, 16000, 48000, u32::MAX] {
        assert_eq!(resample(&data, rate, rate, None), data);
        assert_eq!(resample(&data, rate, rate, Some(bits(&[9.0]))), data);
    }
    assert_eq!(resample(&Vec::new(), 16000, 16000, None), Vec::<u32>::new());
    assert_eq!(sinc_request(5, 16000, 16000), None);
}

#[test]
fn the_band_limited_conversion_is_taken_where_there_is_one() {
    let data = bits(&[0.1, 0.2, 0.3]);
    assert_eq!(resample(&data, 48000, 16000, Some(bits(&[0.7]))), bits(&[0.7]));
    assert_eq!(resample(&data, 48000, 16000, Some(Vec::new())), Vec::<u32>::new());
}

#[test]
fn a_failed_conversion_falls_back_to_linear_interpolation() {
    let data = bits(&sine(4800, 48000));
    let out = resample(&data, 48000, 16000, None);
    assert_eq!(out, resample_simple(&data, 48000, 16000));
    assert_eq!(out.len(), 1600);
}

#[test]
fn downsampling_by_three_keeps_every_third_sample() {
    let data = bits(&[0.0, 0.1, 0.2, 0.3, 0.4, 0.5, 0.6, 0.7, 0.8]);
    assert_eq!(resample_simple(&data, 48000, 16000), bits(&[0.0, 0.3, 0.6]));
}

#[test]
fn upsampling_by_two_interpolates_halfway() {
    let data = bits(&[0.0, 1.0, 0.5]);
    assert_eq!(resample_simple(&data, 8000, 16000), bits(&[0.0, 0.5, 1.0, 0.75, 0.5, 0.5]));
}

#[test]
fn interpolation_weights() {
    assert_eq!(interpolate(2.0f32.to_bits(), 4.0f32.to_bits(), 0, 4), 2.0f32.to_bits());
    assert_eq!(interpolate(2.0f32.to_bits(), 4.0f32.to_bits(), 1, 4), 2.5f32.to_bits());
    assert_eq!(interpolate(2.0f32.to_bits(), 4.0f32.to_bits(), 3, 4), 3.5f32.to_bits());
    assert_eq!(
        interpolate(0.3f32.to_bits(), 0.7f32.to_bits(), 1, 3),
        (0.3f32 * (1.0 - 1.0f32 / 3.0) + 0.7f32 * (1.0f32 / 3.0)).to_bits()
    );
}

#[test]
fn output_length_is_in_proportion() {
    for (len, from, to) in [
        (48000usize, 48000u32, 16000u32),
        (44100, 44100, 16000),
        (1000, 44100, 16000),
        (1001, 44100, 16000),
        (7, 8000, 16000),
        (12345, 22050, 16000),
        (3, 48000, 16000),
        (16000, 96000, 16000),
        (100, 16000, 48000),
    ] {
        let data = vec![0u32; len];
        let n = resample_simple(&data, from, to).len() as i64;
        let exact = len as i64 * to as i64 / from as i64;
        assert!((n - exact).abs() <= 2, "{len} samples, {from} -> {to}: {n}");
        assert_eq!(n, exact.max(1));
    }
}

#[test]
fn a_short_input_still_gives_one_sample() {
    assert_eq!(resample_simple(&bits(&[0.25]), 48000, 16000), bits(&[0.25]));
    assert_eq!(resample_simple(&bits(&[0.25, 0.5]), 48000, 16000), bits(&[0.25]));
    assert_eq!(resample_simple(&bits(&[0.25]), u32::MAX, 1), bits(&[0.25]));
    assert_eq!(resample_simple(&Vec::new(), 48000, 16000), Vec::<u32>::new());
}

#[test]
fn linear_interpolation_agrees_with_hardware_arithmetic() {
    for (len, from, to) in [
        (4800usize, 48000u32, 16000u32),
        (4410, 44100, 16000),
        (2205, 22050, 16000),
        (800, 8000, 16000),
        (1100, 11025, 16000),
        (999, 96000, 16000),
        (500, 16000, 44100),
    ] {
        let data = sine(len, from);
        let out = resample_simple(&bits(&data), from, to);
        let expected = reference(&data, from, to);
        assert_eq!(out, bits(&expected), "{from} -> {to}");
    }
}

#[test]
fn linear_interpolation_agrees_with_hardware_on_wild_values() {
    let mut state: u64 = 0x1234_5678_9abc_def0;
    let mut next = move || {
        state = state.wrapping_mul(6364136223846793005).wrapping_add(1442695040888963407);
        (state >> 32) as u32
    };
    let data: Vec<u32> = (0..5000).map(|_| next()).collect();
    for (from, to) in [(48000u32, 16000u32), (44100, 16000), (7, 5), (5, 7), (16001, 16000)] {
        let out = floats(&resample_simple(&data, from, to));
        let expected = reference(&floats(&data), from, to);
        assert_eq!(out.len(), expected.len());
        for (i, (got, want)) in out.iter().zip(expected.iter()).enumerate() {
            if want.is_nan() {
                assert!(got.is_nan(), "{from} -> {to}, sample {i}");
            } else {
                assert_eq!(got.to_bits(), want.to_bits(), "{from} -> {to}, sample {i}");
            }
        }
    }
}

#[test]
fn the_length_limit_is_told_in_advance() {
    assert!(linear_len_fits(48000, 48000, 16000));
    assert!(linear_len_fits(0, 1, u32::MAX));
    assert!(linear_len_fits(usize::MAX, 2, 1));
    assert!(linear_len_fits(usize::MAX, 16000, 16000));
    assert!(!linear_len_fits(usize::MAX, 1, 2));
    assert!(!linear_len_fits(usize::MAX / 2 + 1, 8000, 16000));
    assert!(linear_len_fits(usize::MAX / 2, 8000, 16000));
}
