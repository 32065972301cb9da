use fractal_sketches::spectrum::{compute_dft, Complex};
use rustfft::{num_complex::Complex as FftComplex, FftPlanner};

/// The standard forward-DFT twiddle table, scaled to fixed point:
/// `w[j] = round(65536 * exp(-2*pi*i*j/n))`.
fn twiddle_table(n: usize) -> Vec<Complex> {
    (0..n)
        .map(|j| {
            let angle = -std::f64::consts::TAU * (j as f64) / (n as f64);
            Complex {
                re: (angle.cos() * 65536.0).round() as i64,
                im: (angle.sin() * 65536.0).round() as i64,
            }
        })
        .collect()
}

#[test]
fn zero_signal_gives_all_zero_bins() {
    let samples = vec![0i64; 16];
    let out = compute_dft(&samples, &twiddle_table(16));
    assert_eq!(out.len(), 16);
    for bin in out {
        assert_eq!(bin, Complex { re: 0, im: 0 });
    }
}

#[test]
fn impulse_at_index_zero_gives_equal_nonzero_bins() {
    let mut samples = vec![0i64; 8];
    samples[0] = 5;
    let out = compute_dft(&samples, &twiddle_table(8));
    assert_eq!(out.len(), 8);
    for bin in &out {
        assert_eq!(*bin, out[0]);
        assert!(!(bin.re == 0 && bin.im == 0));
    }
    // The impulse lands on twiddle 0, which is exactly 65536 + 0i.
    assert_eq!(out[0], Complex { re: 5 * 65536, im: 0 });
}

#[test]
fn two_point_transform_exact() {
    // With n = 2 the table is exactly [1, -1] (scaled): bin 0 is the sum
    // of the samples, bin 1 their difference.
    let samples = vec![3i64, 4];
    let twiddles = vec![Complex { re: 65536, im: 0 }, Complex { re: -65536, im: 0 }];
    let out = compute_dft(&samples, &twiddles);
    assert_eq!(out[0], Complex { re: 7 * 65536, im: 0 });
    assert_eq!(out[1], Complex { re: -65536, im: 0 });
}

#[test]
fn fixed_point_transform_matches_float_fft() {
    // The fixed-point transform agrees with the float FFT that renders the
    // visualizer, up to fixed-point rounding.
    let samples: Vec<i64> = vec![12, -7, 3, 30, -25, 8, 0, -14];
    let n = samples.len();
    let out = compute_dft(&samples, &twiddle_table(n));

    let mut wave: Vec<FftComplex<f32>> =
        samples.iter().map(|&s| FftComplex::new(s as f32, 0.0)).collect();
    let mut planner = FftPlanner::new();
    let fft = planner.plan_fft_forward(n);
    fft.process(&mut wave);

    for k in 0..n {
        let re = out[k].re as f64 / 65536.0;
        let im = out[k].im as f64 / 65536.0;
        assert!((re - wave[k].re as f64).abs() < 0.05, "bin {k} re: {re} vs {}", wave[k].re);
        assert!((im - wave[k].im as f64).abs() < 0.05, "bin {k} im: {im} vs {}", wave[k].im);
    }
}
