use spectral::signal::Sine;
use spectral::spectrum::frequency_axis;
use spectral::transform::{
    is_power_of_two, split, split_signal, Dft, FourierTransform, TransformError, Window,
};
use std::f64::consts::TAU;

const SAMPLE_RATE: u32 = 500;
const NR_SAMPLES: usize = 1000;
const SCALE: f64 = 1000.0;

/// Samples of a generator, scaled by `SCALE` and rounded to integers.
fn quantized(mut sine: Sine, count: usize) -> Vec<i32> {
    let mut out = Vec::new();
    for _ in 0..count {
        let p = sine.next_phase();
        let value = (TAU * p.turns_num as f64 / p.turns_den as f64).sin();
        out.push((value * SCALE).round() as i32);
    }
    out
}

fn signal_helper() -> FourierTransform {
    let mut dft = FourierTransform::new();
    let sine1 = quantized(Sine::new(200, SAMPLE_RATE), NR_SAMPLES);
    dft.signal = sine1;
    dft
}

/// The complex value of a bin: `sum_j coef[j] * exp(-2*pi*i*j/N)`.
fn evaluate(bin: &[i64]) -> (f64, f64) {
    let n = bin.len() as f64;
    let mut re = 0.0;
    let mut im = 0.0;
    for (j, c) in bin.iter().enumerate() {
        let angle = -TAU * j as f64 / n;
        re += *c as f64 * angle.cos();
        im += *c as f64 * angle.sin();
    }
    (re, im)
}

fn magnitude(bin: &[i64]) -> f64 {
    let (re, im) = evaluate(bin);
    (re * re + im * im).sqrt()
}

#[test]
fn running_dft() {
    let mut dft = signal_helper();
    let signal_len: usize = dft.signal.len();

    dft.dft().unwrap();
    assert_eq!(signal_len, dft.bins.len());
}

#[test]
fn splitting() {
    let dft = signal_helper();
    let signal_len: usize = dft.signal.len();

    let (even, odd) = split(&dft);

    let size_of_odd: usize = odd.len();
    let size_of_even: usize = even.len();
    let tot_size: usize = size_of_even + size_of_odd;

    assert_eq!(signal_len, tot_size);
}

#[test]
fn split_keeps_order_of_each_half() {
    let (even, odd) = split_signal(&vec![1, 2, 3, 4, 5]);
    assert_eq!(even, vec![1, 3, 5]);
    assert_eq!(odd, vec![2, 4]);
}

#[test]
fn dft_length_matches_signal_length() {
    for n in 1..12usize {
        let mut ft = FourierTransform::new();
        ft.signal = (0..n as i32).collect();
        ft.dft().unwrap();
        assert_eq!(ft.bins.len(), n);
        assert!(ft.bins.iter().all(|b| b.len() == n));
    }
}

#[test]
fn constant_signal_scenario() {
    let mut ft = FourierTransform::new();
    ft.signal = vec![1; 8];
    ft.dft().unwrap();
    assert_eq!(ft.bins[0], vec![8, 0, 0, 0, 0, 0, 0, 0]);
    assert_eq!(evaluate(&ft.bins[0]), (8.0, 0.0));
    for k in 1..8 {
        assert!(magnitude(&ft.bins[k]) < 1e-9, "bin {} not zero", k);
    }
}

#[test]
fn constant_signal_of_any_value() {
    let mut ft = FourierTransform::new();
    ft.signal = vec![-7; 12];
    ft.dft().unwrap();
    let mut expected = vec![0i64; 12];
    expected[0] = -84;
    assert_eq!(ft.bins[0], expected);
    for k in 1..12 {
        assert!(magnitude(&ft.bins[k]) < 1e-9);
    }
}

#[test]
fn two_cycles_in_eight_samples_scenario() {
    let mut ft = FourierTransform::new();
    ft.signal = (0..8)
        .map(|n| ((TAU * 2.0 * n as f64 / 8.0).sin() * SCALE).round() as i32)
        .collect();
    assert_eq!(ft.signal, vec![0, 1000, 0, -1000, 0, 1000, 0, -1000]);
    ft.dft().unwrap();
    for k in 0..8 {
        let m = magnitude(&ft.bins[k]) / SCALE;
        if k == 2 || k == 6 {
            assert!((m - 4.0).abs() < 1e-9, "bin {} has {}", k, m);
        } else {
            assert!(m < 1e-9, "bin {} has {}", k, m);
        }
    }
}

#[test]
fn single_tone_peaks_at_its_bin_and_mirror() {
    // 50 Hz sampled at 400 Hz over 64 samples: 8 cycles, bin 8 and bin 56.
    let n = 64;
    let mut ft = FourierTransform::new();
    let mut samples = vec![0];
    samples.extend(quantized(Sine::new(50, 400), n - 1));
    ft.signal = samples;
    ft.fft().unwrap();
    for k in 0..n {
        let m = magnitude(&ft.bins[k]) / SCALE;
        if k == 8 || k == 56 {
            assert!((m - 32.0).abs() < 0.05, "bin {} has {}", k, m);
        } else {
            assert!(m < 0.05, "bin {} has {}", k, m);
        }
    }
}

#[test]
fn fft_equals_dft_exactly() {
    let signal: Vec<i32> = vec![3, -1, 4, 1, -5, 9, 2, -6, 5, 3, -5, 8, 9, -7, 9, 3];
    let mut a = FourierTransform::new();
    a.signal = signal.clone();
    a.dft().unwrap();
    let mut b = FourierTransform::new();
    b.signal = signal.clone();
    b.fft().unwrap();
    assert_eq!(a.bins, b.bins);
    assert_eq!(a.bins, a.simple_dft(&signal));
}

#[test]
fn fft_of_single_sample_is_itself() {
    let mut ft = FourierTransform::new();
    ft.signal = vec![42];
    ft.fft().unwrap();
    assert_eq!(ft.bins, vec![vec![42]]);
}

#[test]
fn parseval_energy() {
    let signal: Vec<i32> = vec![10, -20, 30, 5, 0, -15, 25, 7, 1, 2, -3, 4, 8, -9, 11, 6];
    let mut ft = FourierTransform::new();
    ft.signal = signal.clone();
    ft.fft().unwrap();
    let time: f64 = signal.iter().map(|&x| (x as f64) * (x as f64)).sum();
    let freq: f64 = ft.bins.iter().map(|b| magnitude(b).powi(2)).sum::<f64>() / 16.0;
    assert!((time - freq).abs() < 1e-6 * time);
}

#[test]
fn fft_rejects_non_power_of_two() {
    let mut ft = FourierTransform::new();
    ft.signal = vec![1, 2, 3, 4, 5, 6];
    ft.bins = vec![vec![9]];
    assert_eq!(ft.fft(), Err(TransformError::InvalidLength));
    assert_eq!(ft.bins, vec![vec![9]]);
}

#[test]
fn transforms_reject_empty_signal() {
    let mut ft = FourierTransform::new();
    assert_eq!(ft.dft(), Err(TransformError::EmptySignal));
    assert_eq!(ft.fft(), Err(TransformError::EmptySignal));
}

#[test]
fn power_of_two_check() {
    assert!(!is_power_of_two(0));
    assert!(is_power_of_two(1));
    assert!(is_power_of_two(2));
    assert!(!is_power_of_two(6));
    assert!(is_power_of_two(1024));
    assert!(!is_power_of_two(1023));
}

#[test]
fn rectangular_window_is_identity() {
    let mut ft = FourierTransform::new();
    ft.signal = vec![1, -2, 3, 4, 5];
    ft.rectangular(3);
    assert_eq!(ft.signal, vec![1, -2, 3, 4, 5]);
    ft.rectangular(10);
    assert_eq!(ft.signal, vec![1, -2, 3, 4, 5]);
}

#[test]
fn frequency_axis_in_millihertz() {
    assert_eq!(
        frequency_axis(1000, 8),
        Ok(vec![0, 125000, 250000, 375000, 500000, 625000, 750000, 875000])
    );
    assert_eq!(frequency_axis(1000, 3), Ok(vec![0, 333333, 666666]));
    assert_eq!(frequency_axis(1000, 0), Err(TransformError::EmptySignal));
    assert_eq!(frequency_axis(0, 8), Err(TransformError::NumericDegenerate));
}

#[test]
fn constant_power_of_two_signal_cancels_off_zero() {
    let mut ft = FourierTransform::new();
    ft.signal = vec![5; 16];
    ft.fft().unwrap();
    let mut dc = vec![0i64; 16];
    dc[0] = 80;
    assert_eq!(ft.bins[0], dc);
    for k in 1..16 {
        for j in 0..8 {
            assert_eq!(ft.bins[k][j], ft.bins[k][j + 8], "bin {} at {}", k, j);
        }
        assert!(magnitude(&ft.bins[k]) < 1e-9);
    }
}
