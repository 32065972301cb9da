//! The spectral transform of the radial visualizer: a forward discrete
//! Fourier transform of a real-valued sample block, in fixed point.
//!
//! Bin `k` of the transform is the sum over `t` of `x[t] * w[(k*t) mod N]`,
//! where `w` is a caller-supplied table of the `N` complex roots of unity
//! (scaled to integers). The full `N`-point output is kept, including the
//! mirrored half; there is no windowing and no normalization.

use vstd::prelude::*;

verus! {

/// Largest sample block the transform accepts.
pub const MAX_SAMPLES: usize = 0x10_0000;

/// Largest magnitude allowed for an input sample.
pub const MAX_SAMPLE: i64 = 0x10_0000;

/// Largest magnitude allowed for a twiddle-table component.
pub const MAX_TWIDDLE: i64 = 0x2_0000;

/// A complex spectrum sample in fixed point.
#[derive(Clone, Copy, Debug, PartialEq, Eq, Structural)]
pub struct Complex {
    pub re: i64,
    pub im: i64,
}

impl View for Complex {
    type V = (int, int);

    open spec fn view(&self) -> (int, int) {
        (self.re as int, self.im as int)
    }
}

/// The component pairs of a sequence of complex samples.
pub open spec fn complex_view(s: Seq<Complex>) -> Seq<(int, int)> {
    s.map_values(|c: Complex| c@)
}

/// The mathematical values of a sequence of samples.
pub open spec fn samples_view(s: Seq<i64>) -> Seq<int> {
    s.map_values(|v: i64| v as int)
}

/// The partial sum of bin `k`: contributions of the first `n` samples,
/// sample `t` weighted by twiddle `(k*t) mod N`.
pub open spec fn spec_bin_partial(x: Seq<int>, w: Seq<(int, int)>, k: int, n: nat) -> (int, int)
    recommends
        x.len() == w.len(),
        n <= x.len(),
    decreases n,
{
    if n == 0 {
        (0, 0)
    } else {
        let prev = spec_bin_partial(x, w, k, (n - 1) as nat);
        let idx = (k * (n - 1)) % (x.len() as int);
        (prev.0 + x[n - 1] * w[idx].0, prev.1 + x[n - 1] * w[idx].1)
    }
}

/// Bin `k` of the forward transform of `x` under twiddle table `w`.
pub open spec fn spec_dft_bin(x: Seq<int>, w: Seq<(int, int)>, k: int) -> (int, int) {
    spec_bin_partial(x, w, k, x.len())
}

/// Every sample's magnitude is at most `bound`.
pub open spec fn samples_bounded(x: Seq<int>, bound: int) -> bool {
    forall|i: int| 0 <= i < x.len() ==> -bound <= #[trigger] x[i] <= bound
}

/// Every table component's magnitude is at most `bound`.
pub open spec fn twiddles_bounded(w: Seq<(int, int)>, bound: int) -> bool {
    forall|i: int|
        0 <= i < w.len() ==> -bound <= #[trigger] w[i].0 <= bound && -bound <= w[i].1 <= bound
}

proof fn lemma_bin_partial_bound(x: Seq<int>, w: Seq<(int, int)>, k: int, n: nat)
    requires
        x.len() == w.len() >= 1,
        n <= x.len(),
        samples_bounded(x, MAX_SAMPLE as int),
        twiddles_bounded(w, MAX_TWIDDLE as int),
    ensures
        -(n * 0x20_0000_0000) <= spec_bin_partial(x, w, k, n).0 <= n * 0x20_0000_0000,
        -(n * 0x20_0000_0000) <= spec_bin_partial(x, w, k, n).1 <= n * 0x20_0000_0000,
    decreases n,
{
    if n == 0 {
    } else {
        lemma_bin_partial_bound(x, w, k, (n - 1) as nat);
        let idx = (k * (n - 1)) % (x.len() as int);
        assert(0 <= idx < w.len()) by {
            vstd::arithmetic::div_mod::lemma_mod_bound(k * (n - 1), x.len() as int);
        }
        assert(-0x20_0000_0000 <= x[n - 1] * w[idx].0 <= 0x20_0000_0000 && -0x20_0000_0000 <= x[n
            - 1] * w[idx].1 <= 0x20_0000_0000) by (nonlinear_arith)
            requires
                -0x10_0000 <= x[n - 1] <= 0x10_0000 && -0x2_0000 <= w[idx].0 <= 0x2_0000
                    && -0x2_0000 <= w[idx].1 <= 0x2_0000,
        ;
        assert((n - 1) * 0x20_0000_0000 + 0x20_0000_0000 == n * 0x20_0000_0000) by (nonlinear_arith)
            requires
                n >= 1,
        ;
    }
}

/// Computes the forward transform: bin `k` of the output is
/// `spec_dft_bin` of the samples under the twiddle table.
pub fn compute_dft(samples: &Vec<i64>, twiddles: &Vec<Complex>) -> (out: Vec<Complex>)
    requires
        samples@.len() == twiddles@.len(),
        1 <= samples@.len() <= MAX_SAMPLES,
        samples_bounded(samples_view(samples@), MAX_SAMPLE as int),
        twiddles_bounded(complex_view(twiddles@), MAX_TWIDDLE as int),
    ensures
        out@.len() == samples@.len(),
        forall|k: int|
            0 <= k < out@.len() ==> (#[trigger] out@[k])@ == spec_dft_bin(
                samples_view(samples@),
                complex_view(twiddles@),
                k,
            ),
{
    let n = samples.len();
    let ghost xv = samples_view(samples@);
    let ghost wv = complex_view(twiddles@);
    let mut out: Vec<Complex> = Vec::new();
    for k in 0..n
        invariant
            n == samples@.len(),
            samples@.len() == twiddles@.len(),
            1 <= n <= MAX_SAMPLES,
            xv == samples_view(samples@),
            wv == complex_view(twiddles@),
            samples_bounded(xv, MAX_SAMPLE as int),
            twiddles_bounded(wv, MAX_TWIDDLE as int),
            out@.len() == k,
            forall|j: int| 0 <= j < k ==> (#[trigger] out@[j])@ == spec_dft_bin(xv, wv, j),
    {
        let mut acc_re: i64 = 0;
        let mut acc_im: i64 = 0;
        for t in 0..n
            invariant
                n == samples@.len(),
                samples@.len() == twiddles@.len(),
                1 <= n <= MAX_SAMPLES,
                k < n,
                xv == samples_view(samples@),
                wv == complex_view(twiddles@),
                samples_bounded(xv, MAX_SAMPLE as int),
                twiddles_bounded(wv, MAX_TWIDDLE as int),
                (acc_re as int, acc_im as int) == spec_bin_partial(xv, wv, k as int, t as nat),
                -((t as int) * 0x20_0000_0000) <= acc_re <= (t as int) * 0x20_0000_0000,
                -((t as int) * 0x20_0000_0000) <= acc_im <= (t as int) * 0x20_0000_0000,
        {
            proof {
                assert((k as int) * (t as int) <= 0x100_0000_0000) by (nonlinear_arith)
                    requires
                        0 <= k <= 0x10_0000 && 0 <= t <= 0x10_0000,
                ;
                vstd::arithmetic::div_mod::lemma_mod_bound((k as int) * (t as int), n as int);
            }
            let idx = (((k as u64) * (t as u64)) % (n as u64)) as usize;
            let s = samples[t];
            let tw = twiddles[idx];
            proof {
                assert(xv.len() == n && wv.len() == n);
                assert(xv[t as int] == s as int);
                assert(wv[idx as int].0 == tw.re as int && wv[idx as int].1 == tw.im as int);
                assert(-0x20_0000_0000 <= (s as int) * (tw.re as int) <= 0x20_0000_0000
                    && -0x20_0000_0000 <= (s as int) * (tw.im as int)
                    <= 0x20_0000_0000) by (nonlinear_arith)
                    requires
                        -0x10_0000 <= s as int <= 0x10_0000 && -0x2_0000 <= tw.re as int <= 0x2_0000
                            && -0x2_0000 <= tw.im as int <= 0x2_0000,
                ;
                assert((t as int) * 0x20_0000_0000 + 0x20_0000_0000 == (t + 1) as int
                    * 0x20_0000_0000) by (nonlinear_arith);
                assert((t as int) * 0x20_0000_0000 <= 0x10_0000 * 0x20_0000_0000) by (nonlinear_arith)
                    requires
                        0 <= t as int <= 0x10_0000,
                ;
            }
            acc_re = acc_re + s * tw.re;
            acc_im = acc_im + s * tw.im;
        }
        out.push(Complex { re: acc_re, im: acc_im });
    }
    out
}

/// A constant-zero input signal yields an all-zero forward transform:
/// every bin is exactly zero, whatever the twiddle table holds.
pub proof fn lemma_dft_zero_signal(x: Seq<int>, w: Seq<(int, int)>, k: int)
    requires
        x.len() == w.len() >= 1,
        forall|i: int| 0 <= i < x.len() ==> #[trigger] x[i] == 0,
    ensures
        spec_dft_bin(x, w, k) == (0int, 0int),
{
    lemma_bin_partial_zero(x, w, k, x.len());
}

proof fn lemma_bin_partial_zero(x: Seq<int>, w: Seq<(int, int)>, k: int, n: nat)
    requires
        x.len() == w.len() >= 1,
        n <= x.len(),
        forall|i: int| 0 <= i < x.len() ==> #[trigger] x[i] == 0,
    ensures
        spec_bin_partial(x, w, k, n) == (0int, 0int),
    decreases n,
{
    if n == 0 {
    } else {
        lemma_bin_partial_zero(x, w, k, (n - 1) as nat);
    }
}

/// A unit impulse at index 0 puts the same value `x[0] * w[0]` in every
/// bin: sample 0 is always weighted by twiddle 0, and all other samples
/// contribute nothing. In particular every bin has the same magnitude.
pub proof fn lemma_dft_impulse(x: Seq<int>, w: Seq<(int, int)>, k: int)
    requires
        x.len() == w.len() >= 1,
        forall|i: int| 1 <= i < x.len() ==> #[trigger] x[i] == 0,
    ensures
        spec_dft_bin(x, w, k) == (x[0] * w[0].0, x[0] * w[0].1),
{
    lemma_bin_partial_impulse(x, w, k, x.len());
}

proof fn lemma_bin_partial_impulse(x: Seq<int>, w: Seq<(int, int)>, k: int, n: nat)
    requires
        x.len() == w.len() >= 1,
        1 <= n <= x.len(),
        forall|i: int| 1 <= i < x.len() ==> #[trigger] x[i] == 0,
    ensures
        spec_bin_partial(x, w, k, n) == (x[0] * w[0].0, x[0] * w[0].1),
    decreases n,
{
    if n == 1 {
        assert((k * 0) % (x.len() as int) == 0) by {
            assert(k * 0 == 0) by (nonlinear_arith);
            vstd::arithmetic::div_mod::lemma_small_mod(0, x.len());
        }
        assert(spec_bin_partial(x, w, k, 0) == (0int, 0int));
    } else {
        lemma_bin_partial_impulse(x, w, k, (n - 1) as nat);
    }
}

/// With a unit impulse at index 0, all bins of the transform are equal.
pub proof fn lemma_dft_impulse_uniform(x: Seq<int>, w: Seq<(int, int)>, k1: int, k2: int)
    requires
        x.len() == w.len() >= 1,
        forall|i: int| 1 <= i < x.len() ==> #[trigger] x[i] == 0,
    ensures
        spec_dft_bin(x, w, k1) == spec_dft_bin(x, w, k2),
{
    lemma_dft_impulse(x, w, k1);
    lemma_dft_impulse(x, w, k2);
}

/// With a nonzero impulse and a nonzero zeroth twiddle, every bin of the
/// transform is nonzero.
pub proof fn lemma_dft_impulse_nonzero(x: Seq<int>, w: Seq<(int, int)>, k: int)
    requires
        x.len() == w.len() >= 1,
        forall|i: int| 1 <= i < x.len() ==> #[trigger] x[i] == 0,
        x[0] != 0,
        w[0] != (0int, 0int),
    ensures
        spec_dft_bin(x, w, k) != (0int, 0int),
{
    lemma_dft_impulse(x, w, k);
    if w[0].0 != 0 {
        assert(x[0] * w[0].0 != 0) by (nonlinear_arith)
            requires
                x[0] != 0 && w[0].0 != 0,
        ;
    } else {
        assert(x[0] * w[0].1 != 0) by (nonlinear_arith)
            requires
                x[0] != 0 && w[0].1 != 0,
        ;
    }
}

} // verus!
