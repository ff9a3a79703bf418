//! The transform engine: naive DFT and radix-2 decimation-in-time FFT, both exact.
use vstd::prelude::*;
use crate::phasor::{
    butterfly_coef, coefs_of, dft_bin, dft_spec, evens, fft_spec, is_pow2, lemma_fft_is_dft,
    lemma_fft_step, lemma_phase_coef_bound, odds, phase_coef, samples_of, spectrum_of,
    MAX_SIGNAL_LEN,
};

verus! {

/// Why a transform refused its input.
#[derive(Clone, Copy, Debug, PartialEq, Eq, Structural)]
pub enum TransformError {
    /// The signal holds no sample.
    EmptySignal,
    /// The FFT was asked for on a length that is not a power of two.
    InvalidLength,
    /// A parameter would make the result undefined (a zero sample rate).
    NumericDegenerate,
}

/// A vector of `n` zero coefficients.
fn zero_bin(n: usize) -> (bin: Vec<i64>)
    ensures
        bin.len() == n,
        forall|j: int| 0 <= j < n ==> bin[j] == 0,
{
    let mut bin: Vec<i64> = Vec::new();
    let mut j: usize = 0;
    while j < n
        invariant
            j <= n,
            bin.len() == j,
            forall|i: int| 0 <= i < j ==> bin[i] == 0,
        decreases n - j,
    {
        bin.push(0);
        j += 1;
    }
    bin
}

/// Bin `k` of the DFT of `s`, accumulated sample by sample.
fn dft_one_bin(s: &Vec<i32>, k: usize) -> (bin: Vec<i64>)
    requires
        0 < s.len() <= MAX_SIGNAL_LEN,
        k < s.len(),
    ensures
        coefs_of(bin@) == dft_bin(samples_of(s@), k as int),
{
    let n = s.len();
    let ghost sv = samples_of(s@);
    let ghost b: int = 0x8000_0000;
    let mut bin = zero_bin(n);
    assert forall|i: int| 0 <= i < sv.len() implies -b <= #[trigger] sv[i] <= b by {}
    let mut m: usize = 0;
    while m < n
        invariant
            n == s.len(),
            0 < n <= MAX_SIGNAL_LEN,
            k < n,
            m <= n,
            sv == samples_of(s@),
            b == 0x8000_0000,
            forall|i: int| 0 <= i < sv.len() ==> -b <= #[trigger] sv[i] <= b,
            bin.len() == n,
            forall|j: int| 0 <= j < n ==> #[trigger] bin[j] as int == phase_coef(sv, k as int, j, m as int),
        decreases n - m,
    {
        assert((k as int) * (m as int) < 0x1_0000_0000_0000_0000) by (nonlinear_arith)
            requires k < 1073741824, m < 1073741824;
        let idx = ((k as u64) * (m as u64) % (n as u64)) as usize;
        proof {
            lemma_phase_coef_bound(sv, k as int, idx as int, m as int, b);
            assert((m as int) * b <= 0x2000_0000_0000_0000) by (nonlinear_arith)
                requires m <= 1073741824, b == 0x8000_0000;
        }
        let cur = bin[idx];
        bin.set(idx, cur + s[m] as i64);
        m += 1;
    }
    assert(coefs_of(bin@) =~= dft_bin(sv, k as int));
    bin
}


/// Splits a signal into its samples at even and at odd positions.
pub fn split_signal(s: &Vec<i32>) -> (r: (Vec<i32>, Vec<i32>))
    ensures
        samples_of(r.0@) == evens(samples_of(s@)),
        samples_of(r.1@) == odds(samples_of(s@)),
        r.0.len() + r.1.len() == s.len(),
{
    let ghost sv = samples_of(s@);
    let mut even: Vec<i32> = Vec::new();
    let mut odd: Vec<i32> = Vec::new();
    let mut i: usize = 0;
    while i < s.len()
        invariant
            i <= s.len(),
            sv == samples_of(s@),
            even.len() == (i + 1) / 2,
            odd.len() == i / 2,
            forall|a: int| 0 <= a < even.len() ==> #[trigger] even[a] == s[2 * a],
            forall|a: int| 0 <= a < odd.len() ==> #[trigger] odd[a] == s[2 * a + 1],
        decreases s.len() - i,
    {
        if i % 2 == 0 {
            even.push(s[i]);
        } else {
            odd.push(s[i]);
        }
        i += 1;
    }
    assert(samples_of(even@) =~= evens(sv));
    assert(samples_of(odd@) =~= odds(sv));
    (even, odd)
}

/// Combines bin `k mod n/2` of the even and odd half-length transforms into bin `k`:
/// `embed(e) + w^k * embed(o)`. For `k >= n/2` the factor is `w^(k - n/2) * w^(n/2)`,
/// and `w^(n/2) == -1`: this is the lower output of the butterfly.
fn butterfly(e: &Vec<i64>, o: &Vec<i64>, k: usize, n: usize) -> (bin: Vec<i64>)
    requires
        0 < n <= MAX_SIGNAL_LEN,
        n % 2 == 0,
        k < n,
        e.len() == n / 2,
        o.len() == n / 2,
        forall|i: int| 0 <= i < n / 2 ==> -0x2000_0000_0000_0000 <= #[trigger] e[i] <= 0x2000_0000_0000_0000,
        forall|i: int| 0 <= i < n / 2 ==> -0x2000_0000_0000_0000 <= #[trigger] o[i] <= 0x2000_0000_0000_0000,
    ensures
        coefs_of(bin@) == Seq::new(
            n as nat,
            |j: int| butterfly_coef(coefs_of(e@), coefs_of(o@), k as int, n as int, j),
        ),
{
    let mut bin: Vec<i64> = Vec::new();
    let mut j: usize = 0;
    while j < n
        invariant
            0 < n <= MAX_SIGNAL_LEN,
            n % 2 == 0,
            k < n,
            j <= n,
            e.len() == n / 2,
            o.len() == n / 2,
            forall|i: int| 0 <= i < n / 2 ==> -0x2000_0000_0000_0000 <= #[trigger] e[i] <= 0x2000_0000_0000_0000,
            forall|i: int| 0 <= i < n / 2 ==> -0x2000_0000_0000_0000 <= #[trigger] o[i] <= 0x2000_0000_0000_0000,
            bin.len() == j,
            forall|i: int|
                0 <= i < j ==> #[trigger] bin[i] as int == butterfly_coef(
                    coefs_of(e@),
                    coefs_of(o@),
                    k as int,
                    n as int,
                    i,
                ),
        decreases n - j,
    {
        let from_even: i64 = if j % 2 == 0 {
            e[j / 2]
        } else {
            0
        };
        let d: usize = (j + (n - k)) % n;
        proof {
            vstd::arithmetic::div_mod::lemma_mod_add_multiples_vanish(j - k, n as int);
        }
        let from_odd: i64 = if d % 2 == 0 {
            o[d / 2]
        } else {
            0
        };
        bin.push(from_even + from_odd);
        j += 1;
    }
    assert(coefs_of(bin@) =~= Seq::new(
        n as nat,
        |j: int| butterfly_coef(coefs_of(e@), coefs_of(o@), k as int, n as int, j),
    ));
    bin
}

/// Bin coefficients of a signal stay within `|coef| <= 2^61`.
proof fn lemma_bins_bounded(v: Seq<i32>, k: int)
    requires
        0 < v.len() <= MAX_SIGNAL_LEN,
    ensures
        forall|j: int|
            0 <= j < v.len() ==> -0x2000_0000_0000_0000 <= #[trigger] dft_bin(samples_of(v), k)[j]
                <= 0x2000_0000_0000_0000,
{
    let s = samples_of(v);
    assert forall|i: int| 0 <= i < s.len() implies -0x8000_0000 <= #[trigger] s[i] <= 0x8000_0000 by {}
    lemma_seq_bins_bounded(s, k);
}

proof fn lemma_seq_bins_bounded(s: Seq<int>, k: int)
    requires
        0 < s.len() <= MAX_SIGNAL_LEN,
        forall|i: int| 0 <= i < s.len() ==> -0x8000_0000 <= #[trigger] s[i] <= 0x8000_0000,
    ensures
        forall|j: int|
            0 <= j < s.len() ==> -0x2000_0000_0000_0000 <= #[trigger] dft_bin(s, k)[j]
                <= 0x2000_0000_0000_0000,
{
    assert forall|j: int| 0 <= j < s.len() implies -0x2000_0000_0000_0000 <= #[trigger] dft_bin(
        s,
        k,
    )[j] <= 0x2000_0000_0000_0000 by {
        lemma_phase_coef_bound(s, k, j, s.len() as int, 0x8000_0000);
        assert((s.len() as int) * 0x8000_0000 <= 0x2000_0000_0000_0000) by (nonlinear_arith)
            requires s.len() <= 1073741824;
    }
}

/// Radix-2 decimation-in-time FFT on a power-of-two length, by recursion on the
/// even and odd halves of the signal.
fn fft_exact(s: &Vec<i32>) -> (bins: Vec<Vec<i64>>)
    requires
        0 < s.len() <= MAX_SIGNAL_LEN,
        is_pow2(s.len() as int),
    ensures
        bins.len() == s.len(),
        forall|k: int| 0 <= k < s.len() ==> #[trigger] coefs_of(bins[k]@) == dft_bin(samples_of(s@), k),
        spectrum_of(bins@) == dft_spec(samples_of(s@)),
        spectrum_of(bins@) == fft_spec(samples_of(s@)),
    decreases s.len(),
{
    let n = s.len();
    let ghost sv = samples_of(s@);
    if n == 1 {
        let bin: Vec<i64> = vec![s[0] as i64];
        assert(phase_coef(sv, 0, 0, 1) == phase_coef(sv, 0, 0, 0) + sv[0]);
        assert(coefs_of(bin@) =~= dft_bin(sv, 0));
        let bins = vec![bin];
        proof {
            lemma_fft_is_dft(sv);
            assert(spectrum_of(bins@) =~= dft_spec(sv));
        }
        return bins;
    }
    let h = n / 2;
    assert(n % 2 == 0 && is_pow2(h as int));
    let (even, odd) = split_signal(s);
    assert(even.len() == h && odd.len() == h) by {
        assert(samples_of(even@).len() == even.len());
        assert(samples_of(odd@).len() == odd.len());
    }
    let fe = fft_exact(&even);
    let fo = fft_exact(&odd);
    let ghost ev = samples_of(even@);
    let ghost ov = samples_of(odd@);
    let mut bins: Vec<Vec<i64>> = Vec::new();
    let mut k: usize = 0;
    while k < n
        invariant
            n == s.len(),
            1 < n <= MAX_SIGNAL_LEN,
            n % 2 == 0,
            h == n / 2,
            sv == samples_of(s@),
            ev == samples_of(even@),
            ov == samples_of(odd@),
            ev == evens(sv),
            ov == odds(sv),
            even.len() == h,
            odd.len() == h,
            fe.len() == h,
            fo.len() == h,
            forall|i: int| 0 <= i < h ==> #[trigger] coefs_of(fe[i]@) == dft_bin(ev, i),
            forall|i: int| 0 <= i < h ==> #[trigger] coefs_of(fo[i]@) == dft_bin(ov, i),
            k <= n,
            bins.len() == k,
            forall|i: int| 0 <= i < k ==> #[trigger] coefs_of(bins[i]@) == dft_bin(sv, i),
        decreases n - k,
    {
        let kk: usize = if k < h {
            k
        } else {
            k - h
        };
        proof {
            assert(coefs_of(fe[kk as int]@).len() == fe[kk as int].len());
            assert(coefs_of(fo[kk as int]@).len() == fo[kk as int].len());
            lemma_bins_bounded(even@, kk as int);
            lemma_bins_bounded(odd@, kk as int);
            assert forall|i: int| 0 <= i < h implies -0x2000_0000_0000_0000 <= #[trigger] fe[kk as int][i] <= 0x2000_0000_0000_0000 by {
                assert(coefs_of(fe[kk as int]@)[i] == dft_bin(ev, kk as int)[i]);
            }
            assert forall|i: int| 0 <= i < h implies -0x2000_0000_0000_0000 <= #[trigger] fo[kk as int][i] <= 0x2000_0000_0000_0000 by {
                assert(coefs_of(fo[kk as int]@)[i] == dft_bin(ov, kk as int)[i]);
            }
        }
        let bin = butterfly(&fe[kk], &fo[kk], k, n);
        proof {
            lemma_fft_step(sv, k as int);
            if k < h {
                vstd::arithmetic::div_mod::lemma_small_mod(k as nat, h as nat);
            } else {
                vstd::arithmetic::div_mod::lemma_fundamental_div_mod_converse(
                    k as int,
                    h as int,
                    1,
                    (k - h) as int,
                );
            }
            assert(kk as int == (k as int) % (h as int));
        }
        bins.push(bin);
        k += 1;
    }
    proof {
        lemma_fft_is_dft(sv);
        assert(spectrum_of(bins@) =~= dft_spec(sv));
    }
    bins
}


/// The whole naive transform: `N` bins, each accumulated over all `N` samples.
fn dft_all(s: &Vec<i32>) -> (bins: Vec<Vec<i64>>)
    requires
        s.len() <= MAX_SIGNAL_LEN,
    ensures
        spectrum_of(bins@) == dft_spec(samples_of(s@)),
{
    let n = s.len();
    let mut bins: Vec<Vec<i64>> = Vec::new();
    let mut k: usize = 0;
    while k < n
        invariant
            n == s.len(),
            n <= MAX_SIGNAL_LEN,
            k <= n,
            bins.len() == k,
            forall|i: int| 0 <= i < k ==> #[trigger] coefs_of(bins[i]@) == dft_bin(samples_of(s@), i),
        decreases n - k,
    {
        bins.push(dft_one_bin(s, k));
        k += 1;
    }
    assert(spectrum_of(bins@) =~= dft_spec(samples_of(s@)));
    bins
}

/// Whether `n` is a power of two.
pub fn is_power_of_two(n: usize) -> (r: bool)
    ensures
        r == is_pow2(n as int),
{
    let mut m: usize = n;
    while m > 1 && m % 2 == 0
        invariant
            is_pow2(n as int) == is_pow2(m as int),
        decreases m,
    {
        m = m / 2;
    }
    m == 1
}

/// A signal and the spectrum last computed from it.
pub struct FourierTransform {
    /// Bin `k` holds the coefficients of `w^0 .. w^(N-1)`, `w = exp(-2*pi*i/N)`.
    pub bins: Vec<Vec<i64>>,
    pub signal: Vec<i32>,
}

impl FourierTransform {
    pub fn new() -> (r: Self)
        ensures
            r.bins.len() == 0,
            r.signal.len() == 0,
    {
        FourierTransform { bins: Vec::new(), signal: Vec::new() }
    }
}

/// Splits the signal of `input` into its samples at even and at odd positions.
pub fn split(input: &FourierTransform) -> (r: (Vec<i32>, Vec<i32>))
    ensures
        samples_of(r.0@) == evens(samples_of(input.signal@)),
        samples_of(r.1@) == odds(samples_of(input.signal@)),
        r.0.len() + r.1.len() == input.signal.len(),
{
    split_signal(&input.signal)
}

/// The transforms a signal holder offers.
pub trait Dft {
    /// The samples the transforms read.
    spec fn signal_samples(&self) -> Seq<int>;

    /// The spectrum the transforms write.
    spec fn spectrum(&self) -> Seq<Seq<int>>;

    /// The naive DFT of `input`; `self` is left as it is.
    fn simple_dft(&self, input: &Vec<i32>) -> (r: Vec<Vec<i64>>)
        requires
            input.len() <= MAX_SIGNAL_LEN,
        ensures
            spectrum_of(r@) == dft_spec(samples_of(input@)),
    ;

    /// The naive DFT of the signal, stored as the spectrum. An empty signal is refused
    /// and leaves the spectrum as it was.
    fn dft(&mut self) -> (r: Result<(), TransformError>)
        requires
            old(self).signal_samples().len() <= MAX_SIGNAL_LEN,
        ensures
            final(self).signal_samples() == old(self).signal_samples(),
            old(self).signal_samples().len() == 0 <==> r == Err::<(), TransformError>(
                TransformError::EmptySignal,
            ),
            old(self).signal_samples().len() > 0 <==> r is Ok,
            r is Ok ==> final(self).spectrum() == dft_spec(old(self).signal_samples()),
            r is Ok ==> final(self).spectrum().len() == old(self).signal_samples().len(),
            r is Err ==> final(self).spectrum() == old(self).spectrum(),
    ;

    /// The radix-2 FFT of the signal, stored as the spectrum. An empty signal and a
    /// length that is not a power of two are refused and leave the spectrum as it was.
    fn fft(&mut self) -> (r: Result<(), TransformError>)
        requires
            old(self).signal_samples().len() <= MAX_SIGNAL_LEN,
        ensures
            final(self).signal_samples() == old(self).signal_samples(),
            old(self).signal_samples().len() == 0 <==> r == Err::<(), TransformError>(
                TransformError::EmptySignal,
            ),
            (old(self).signal_samples().len() > 0 && !is_pow2(
                old(self).signal_samples().len() as int,
            )) <==> r == Err::<(), TransformError>(TransformError::InvalidLength),
            (old(self).signal_samples().len() > 0 && is_pow2(
                old(self).signal_samples().len() as int,
            )) <==> r is Ok,
            r is Ok ==> final(self).spectrum() == fft_spec(old(self).signal_samples()),
            r is Ok ==> final(self).spectrum() == dft_spec(old(self).signal_samples()),
            r is Err ==> final(self).spectrum() == old(self).spectrum(),
    ;
}

impl Dft for FourierTransform {
    open spec fn signal_samples(&self) -> Seq<int> {
        samples_of(self.signal@)
    }

    open spec fn spectrum(&self) -> Seq<Seq<int>> {
        spectrum_of(self.bins@)
    }

    fn simple_dft(&self, input: &Vec<i32>) -> (r: Vec<Vec<i64>>) {
        dft_all(input)
    }

    fn dft(&mut self) -> (r: Result<(), TransformError>) {
        if self.signal.len() == 0 {
            return Err(TransformError::EmptySignal);
        }
        self.bins = dft_all(&self.signal);
        Ok(())
    }

    fn fft(&mut self) -> (r: Result<(), TransformError>) {
        if self.signal.len() == 0 {
            return Err(TransformError::EmptySignal);
        }
        if !is_power_of_two(self.signal.len()) {
            return Err(TransformError::InvalidLength);
        }
        self.bins = fft_exact(&self.signal);
        Ok(())
    }
}


/// Windows applied to a signal before it is transformed: each sample is scaled by
/// the window's coefficient at its position.
pub trait Window {
    /// The samples a window scales.
    spec fn window_input(&self) -> Seq<int>;

    /// Applies a rectangular window of `points` samples: its coefficient is 1
    /// everywhere, so every sample keeps its value.
    fn rectangular(&mut self, points: u32)
        ensures
            final(self).window_input() == old(self).window_input(),
    ;
}

impl Window for FourierTransform {
    open spec fn window_input(&self) -> Seq<int> {
        samples_of(self.signal@)
    }

    fn rectangular(&mut self, _points: u32) {
    }
}

} // verus!
