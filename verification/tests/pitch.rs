use audio_utils::pitch::{detect_note, fundamental_frequency};
use audio_utils::spectrum::Coefficient;
use rustfft::num_complex::Complex;
use rustfft::FftPlanner;

fn spikes(len: usize, at: &[(usize, i32)]) -> Vec<Coefficient> {
    let mut coefficients = vec![Coefficient { re: 0, im: 0 }; len];
    for &(bin, re) in at {
        coefficients[bin] = Coefficient { re, im: 0 };
    }
    coefficients
}

/// Transforms a buffer and scales the coefficients so that the largest part
/// becomes 2^30.
fn transform(samples: &[f32]) -> Vec<Coefficient> {
    let mut buffer: Vec<Complex<f32>> = samples.iter().map(|&x| Complex::new(x, 0.0)).collect();
    let mut planner = FftPlanner::<f32>::new();
    planner.plan_fft_forward(buffer.len()).process(&mut buffer);
    let mut largest = 0.0f64;
    for c in &buffer {
        largest = largest.max((c.re as f64).abs()).max((c.im as f64).abs());
    }
    let scale = if largest > 0.0 { 1_073_741_824.0 / largest } else { 0.0 };
    buffer
        .iter()
        .map(|c| Coefficient {
            re: (c.re as f64 * scale).round() as i32,
            im: (c.im as f64 * scale).round() as i32,
        })
        .collect()
}

fn sine(freq_hz: f64, len: usize, sample_rate: u32) -> Vec<f32> {
    (0..len)
        .map(|n| {
            (2.0 * std::f64::consts::PI * freq_hz * n as f64 / sample_rate as f64).sin() as f32
        })
        .collect()
}

fn assert_sine_found(freq_hz: f64, len: usize, sample_rate: u32) {
    let coefficients = transform(&sine(freq_hz, len, sample_rate));
    let found = fundamental_frequency(&coefficients, sample_rate);
    let bin_width_mhz = sample_rate as f64 * 1000.0 / len as f64;
    match found {
        Some(freq_mhz) => {
            let off = (freq_mhz as f64 - freq_hz * 1000.0).abs();
            assert!(off <= bin_width_mhz, "{} Hz found as {} mHz", freq_hz, freq_mhz);
        }
        None => panic!("{} Hz not found", freq_hz),
    }
}

#[test]
fn pure_sine_is_found_within_one_bin() {
    assert_sine_found(440.0, 4096, 44_100);
    assert_sine_found(110.0, 4096, 44_100);
    assert_sine_found(261.63, 4096, 44_100);
    assert_sine_found(880.0, 4096, 44_100);
    assert_sine_found(329.63, 22_050, 44_100);
    assert_sine_found(82.41, 8192, 8000);
}

#[test]
fn pure_sine_is_named() {
    let coefficients = transform(&sine(440.0, 22_050, 44_100));
    assert_eq!(fundamental_frequency(&coefficients, 44_100), Some(440_000));
    assert_eq!(detect_note(&coefficients, 44_100), Some("A".to_string()));
    let coefficients = transform(&sine(330.0, 22_050, 44_100));
    assert_eq!(detect_note(&coefficients, 44_100), Some("E".to_string()));
}

#[test]
fn silence_has_no_fundamental() {
    let coefficients = transform(&vec![0.0f32; 4096]);
    assert_eq!(fundamental_frequency(&coefficients, 44_100), None);
    assert_eq!(detect_note(&coefficients, 44_100), None);
    assert_eq!(fundamental_frequency(&spikes(1000, &[]), 1000), None);
}

#[test]
fn empty_buffer_has_no_fundamental() {
    assert_eq!(fundamental_frequency(&vec![], 44_100), None);
    assert_eq!(detect_note(&vec![], 44_100), None);
}

#[test]
fn constant_buffer_has_no_fundamental() {
    let coefficients = transform(&vec![0.5f32; 4096]);
    assert_eq!(fundamental_frequency(&coefficients, 44_100), None);
}

#[test]
fn single_spike_is_its_own_fundamental() {
    let coefficients = spikes(1000, &[(440, 1000)]);
    assert_eq!(fundamental_frequency(&coefficients, 1000), Some(440_000));
    assert_eq!(detect_note(&coefficients, 1000), Some("A".to_string()));
}

#[test]
fn harmonics_give_their_fundamental() {
    let coefficients = spikes(2000, &[(220, 1000), (440, 700), (660, 500)]);
    assert_eq!(fundamental_frequency(&coefficients, 2000), Some(220_000));
    assert_eq!(detect_note(&coefficients, 2000), Some("A".to_string()));
}

#[test]
fn unrelated_peaks_give_no_fundamental() {
    let coefficients = spikes(2000, &[(440, 1000), (700, 900)]);
    assert_eq!(fundamental_frequency(&coefficients, 2000), None);
    assert_eq!(detect_note(&coefficients, 2000), None);
}

#[test]
fn spike_outside_the_band_is_ignored() {
    // 10 hertz is below the band, 6000 hertz above it.
    assert_eq!(fundamental_frequency(&spikes(1000, &[(10, 1000)]), 1000), None);
    assert_eq!(fundamental_frequency(&spikes(16_000, &[(6000, 1000)]), 16_000), None);
    let coefficients = spikes(16_000, &[(6000, 30_000), (440, 1000)]);
    assert_eq!(fundamental_frequency(&coefficients, 16_000), Some(440_000));
}

#[test]
fn spike_inside_the_band_but_not_detectable_gives_nothing() {
    assert_eq!(fundamental_frequency(&spikes(1000, &[(60, 1000)]), 1000), None);
    assert_eq!(fundamental_frequency(&spikes(8000, &[(2000, 1000)]), 8000), None);
}

#[test]
fn crowded_spectrum_is_refused() {
    // Four candidates, of which three are too close to the strongest.
    let coefficients = spikes(1000, &[(100, 1000), (110, 900), (120, 800), (130, 700)]);
    assert_eq!(fundamental_frequency(&coefficients, 1000), None);
    // Two candidates, one accepted: a half is enough.
    let coefficients = spikes(1000, &[(100, 1000), (110, 900)]);
    assert_eq!(fundamental_frequency(&coefficients, 1000), Some(100_000));
}

#[test]
fn weak_spikes_are_ignored() {
    // Power 40_000 is less than a twentieth of 1_000_000.
    let coefficients = spikes(1000, &[(440, 1000), (700, 200)]);
    assert_eq!(fundamental_frequency(&coefficients, 1000), Some(440_000));
}

#[test]
fn no_more_than_five_peaks_are_analysed() {
    // Six harmonics of 100 hertz; the sixth is the weakest and left out, and
    // five of six candidates are enough.
    let coefficients = spikes(
        2000,
        &[(100, 1000), (200, 900), (300, 800), (400, 700), (500, 600), (600, 500)],
    );
    assert_eq!(fundamental_frequency(&coefficients, 2000), Some(100_000));
}

#[test]
fn same_buffer_gives_the_same_result() {
    let coefficients = transform(&sine(196.0, 4096, 44_100));
    let first = fundamental_frequency(&coefficients, 44_100);
    let second = fundamental_frequency(&coefficients, 44_100);
    assert_eq!(first, second);
    assert_eq!(detect_note(&coefficients, 44_100), detect_note(&coefficients, 44_100));
    let again = transform(&sine(196.0, 4096, 44_100));
    assert_eq!(again, coefficients);
    assert_eq!(fundamental_frequency(&again, 44_100), first);
}
