//! The exact model of a frequency bin and the arithmetic facts it rests on.
use vstd::prelude::*;
use vstd::arithmetic::div_mod::{
    lemma_add_mod_noop, lemma_fundamental_div_mod_converse, lemma_mul_mod_noop_left,
    lemma_sub_mod_noop,
};

verus! {

/// Largest signal length the transforms accept: every coefficient sum then fits in `i64`.
pub const MAX_SIGNAL_LEN: usize = 1073741824;

/// The samples of a signal as mathematical integers.
pub open spec fn samples_of(v: Seq<i32>) -> Seq<int> {
    v.map_values(|x: i32| x as int)
}

/// The coefficients of a bin as mathematical integers.
pub open spec fn coefs_of(v: Seq<i64>) -> Seq<int> {
    v.map_values(|x: i64| x as int)
}

/// A whole spectrum as mathematical integers: one coefficient sequence per bin.
pub open spec fn spectrum_of(b: Seq<Vec<i64>>) -> Seq<Seq<int>> {
    b.map_values(|v: Vec<i64>| coefs_of(v@))
}

/// Coefficient of `w^j` in `sum_{m < upto} s[m] * w^(k*m)`, with `w^N == 1`, `N = s.len()`.
pub open spec fn phase_coef(s: Seq<int>, k: int, j: int, upto: int) -> int
    decreases upto,
{
    if upto <= 0 {
        0
    } else {
        phase_coef(s, k, j, upto - 1) + if (k * (upto - 1)) % (s.len() as int) == j {
            s[upto - 1]
        } else {
            0
        }
    }
}

/// Bin `k` of the discrete Fourier transform of `s`, as its `N` coefficients:
/// `sum_{m < N} s[m] * w^(k*m)`.
pub open spec fn dft_bin(s: Seq<int>, k: int) -> Seq<int> {
    Seq::new(s.len(), |j: int| phase_coef(s, k, j, s.len() as int))
}

/// The whole transform: `N` bins of `N` coefficients each.
pub open spec fn dft_spec(s: Seq<int>) -> Seq<Seq<int>> {
    Seq::new(s.len(), |k: int| dft_bin(s, k))
}

/// `n` is a power of two.
pub open spec fn is_pow2(n: int) -> bool
    decreases n,
{
    if n <= 0 {
        false
    } else if n == 1 {
        true
    } else {
        n % 2 == 0 && is_pow2(n / 2)
    }
}

/// Every partial coefficient is bounded by the number of samples summed.
pub proof fn lemma_phase_coef_bound(s: Seq<int>, k: int, j: int, upto: int, b: int)
    requires
        0 <= upto <= s.len(),
        0 <= b,
        forall|i: int| 0 <= i < s.len() ==> -b <= #[trigger] s[i] <= b,
    ensures
        -(upto * b) <= phase_coef(s, k, j, upto) <= upto * b,
    decreases upto,
{
    if upto > 0 {
        lemma_phase_coef_bound(s, k, j, upto - 1, b);
        assert((upto - 1) * b + b == upto * b) by (nonlinear_arith);
    }
}


/// The samples at even positions.
pub open spec fn evens(s: Seq<int>) -> Seq<int> {
    Seq::new(((s.len() + 1) / 2) as nat, |i: int| s[2 * i])
}

/// The samples at odd positions.
pub open spec fn odds(s: Seq<int>) -> Seq<int> {
    Seq::new((s.len() / 2) as nat, |i: int| s[2 * i + 1])
}

/// Coefficient `j` of `embed(e) + w^k * embed(o)`, where `embed` turns a bin of the
/// half-length transform (root `w^2`) into one of length `n` (root `w`).
pub open spec fn butterfly_coef(e: Seq<int>, o: Seq<int>, k: int, n: int, j: int) -> int {
    (if j % 2 == 0 { e[j / 2] } else { 0 }) + (if ((j - k) % n) % 2 == 0 {
        o[((j - k) % n) / 2]
    } else {
        0
    })
}

/// The radix-2 decimation-in-time recursion: a single sample is its own transform;
/// otherwise bin `k` is the butterfly of bin `k mod N/2` of the transforms of the even
/// and of the odd samples.
pub open spec fn fft_spec(s: Seq<int>) -> Seq<Seq<int>>
    decreases s.len(),
{
    if s.len() <= 1 {
        Seq::new(s.len(), |k: int| s)
    } else {
        let h = (s.len() / 2) as int;
        let fe = fft_spec(evens(s));
        let fo = fft_spec(odds(s));
        Seq::new(
            s.len(),
            |k: int| Seq::new(s.len(), |j: int| butterfly_coef(fe[k % h], fo[k % h], k, s.len() as int, j)),
        )
    }
}

/// Doubling an exponent of the half-length root: `(k * 2a) mod 2h == 2 * ((k mod h) * a mod h)`.
proof fn lemma_double_exponent(k: int, a: int, h: int)
    requires
        0 < h,
        0 <= k,
        0 <= a,
    ensures
        (k * (2 * a)) % (2 * h) == 2 * (((k % h) * a) % h),
{
    let x = k * a;
    assert(k * (2 * a) == 2 * x) by (nonlinear_arith)
        requires x == k * a;
    lemma_mul_mod_noop_left(k, a, h);
    let q = x / h;
    let r = x % h;
    assert(x == h * q + r) by {
        vstd::arithmetic::div_mod::lemma_fundamental_div_mod(x, h);
    }
    assert(2 * x == q * (2 * h) + 2 * r) by (nonlinear_arith)
        requires x == h * q + r;
    lemma_fundamental_div_mod_converse(2 * x, 2 * h, q, 2 * r);
}

/// Multiplying by `w^k` moves an exponent by `k`, modulo `n`.
proof fn lemma_shift_exponent(x: int, k: int, j: int, n: int)
    requires
        0 <= j < n,
        0 <= k < n,
    ensures
        ((x + k) % n == j) <==> (x % n == (j - k) % n),
{
    lemma_add_mod_noop(x, k, n);
    lemma_sub_mod_noop(x + k, k, n);
    lemma_add_mod_noop(x % n, k, n);
    lemma_add_mod_noop(j - k, k, n);
    vstd::arithmetic::div_mod::lemma_small_mod(k as nat, n as nat);
    vstd::arithmetic::div_mod::lemma_small_mod(j as nat, n as nat);
    vstd::arithmetic::div_mod::lemma_mod_twice(j - k, n);
}

/// The first `2a` terms of a bin split into the first `a` terms of the even and
/// the odd half-length transforms.
proof fn lemma_split_prefix(s: Seq<int>, k: int, j: int, a: int)
    requires
        s.len() % 2 == 0,
        0 < s.len(),
        0 <= k < s.len(),
        0 <= j < s.len(),
        0 <= a <= s.len() / 2,
    ensures
        phase_coef(s, k, j, 2 * a) == (if j % 2 == 0 {
            phase_coef(evens(s), k % (s.len() / 2) as int, j / 2, a)
        } else {
            0
        }) + (if ((j - k) % (s.len() as int)) % 2 == 0 {
            phase_coef(odds(s), k % (s.len() / 2) as int, ((j - k) % (s.len() as int)) / 2, a)
        } else {
            0
        }),
    decreases a,
{
    let n = s.len() as int;
    let h = n / 2;
    let kk = k % h;
    let d = (j - k) % n;
    if a > 0 {
        let b = a - 1;
        lemma_split_prefix(s, k, j, b);
        assert(phase_coef(s, k, j, 2 * b + 1) == phase_coef(s, k, j, 2 * b) + if (k * (2 * b))
            % n == j {
            s[2 * b]
        } else {
            0
        });
        assert(phase_coef(s, k, j, 2 * b + 2) == phase_coef(s, k, j, 2 * b + 1) + if (k * (2 * b
            + 1)) % n == j {
            s[2 * b + 1]
        } else {
            0
        });
        lemma_double_exponent(k, b, h);
        assert(k * (2 * b + 1) == k * (2 * b) + k) by (nonlinear_arith);
        lemma_shift_exponent(k * (2 * b), k, j, n);
        assert(evens(s).len() == h);
        assert(odds(s).len() == h);
        assert(evens(s)[b] == s[2 * b]);
        assert(odds(s)[b] == s[2 * b + 1]);
        assert(phase_coef(evens(s), kk, j / 2, a) == phase_coef(evens(s), kk, j / 2, b) + if (kk
            * b) % h == j / 2 {
            s[2 * b]
        } else {
            0
        });
        assert(phase_coef(odds(s), kk, d / 2, a) == phase_coef(odds(s), kk, d / 2, b) + if (kk * b)
            % h == d / 2 {
            s[2 * b + 1]
        } else {
            0
        });
    }
}

/// The radix-2 decimation-in-time step: bin `k` of a length-`n` transform is the
/// butterfly of bin `k mod n/2` of the even and of the odd half-length transforms.
pub proof fn lemma_fft_step(s: Seq<int>, k: int)
    requires
        s.len() % 2 == 0,
        0 < s.len(),
        0 <= k < s.len(),
    ensures
        dft_bin(s, k) == Seq::new(
            s.len(),
            |j: int|
                butterfly_coef(
                    dft_bin(evens(s), k % (s.len() / 2) as int),
                    dft_bin(odds(s), k % (s.len() / 2) as int),
                    k,
                    s.len() as int,
                    j,
                ),
        ),
{
    let n = s.len() as int;
    let h = n / 2;
    let kk = k % h;
    assert forall|j: int| 0 <= j < n implies #[trigger] dft_bin(s, k)[j] == butterfly_coef(
        dft_bin(evens(s), kk),
        dft_bin(odds(s), kk),
        k,
        n,
        j,
    ) by {
        lemma_split_prefix(s, k, j, h);
        let d = (j - k) % n;
        assert(0 <= d < n);
    }
    assert(dft_bin(s, k) =~= Seq::new(
        s.len(),
        |j: int| butterfly_coef(dft_bin(evens(s), kk), dft_bin(odds(s), kk), k, n, j),
    ));
}


/// On every power-of-two length the radix-2 recursion computes the discrete Fourier
/// transform, exactly, bin by bin.
pub proof fn lemma_fft_is_dft(s: Seq<int>)
    requires
        is_pow2(s.len() as int),
    ensures
        fft_spec(s) == dft_spec(s),
    decreases s.len(),
{
    let n = s.len() as int;
    if n == 1 {
        assert(phase_coef(s, 0, 0, 1) == phase_coef(s, 0, 0, 0) + s[0]);
        assert(dft_bin(s, 0) =~= s);
        assert(fft_spec(s) =~= dft_spec(s));
    } else {
        let h = n / 2;
        assert(n % 2 == 0 && is_pow2(h));
        lemma_fft_is_dft(evens(s));
        lemma_fft_is_dft(odds(s));
        assert forall|k: int| 0 <= k < n implies #[trigger] fft_spec(s)[k] == dft_spec(s)[k] by {
            lemma_fft_step(s, k);
            assert(0 <= k % h < h);
        }
        assert(fft_spec(s) =~= dft_spec(s));
    }
}


proof fn lemma_constant_bin_zero(s: Seq<int>, c: int, j: int, upto: int)
    requires
        0 < s.len(),
        0 <= upto <= s.len(),
        0 <= j < s.len(),
        forall|m: int| 0 <= m < s.len() ==> #[trigger] s[m] == c,
    ensures
        phase_coef(s, 0, j, upto) == if j == 0 { upto * c } else { 0 },
    decreases upto,
{
    if upto > 0 {
        lemma_constant_bin_zero(s, c, j, upto - 1);
        assert((upto - 1) * c + c == upto * c) by (nonlinear_arith);
    }
}

/// A constant signal of value `c` puts `N * c` on `w^0` of bin 0 and nothing elsewhere
/// in that bin.
pub proof fn lemma_constant_signal_dc(s: Seq<int>, c: int)
    requires
        0 < s.len(),
        forall|m: int| 0 <= m < s.len() ==> #[trigger] s[m] == c,
    ensures
        dft_spec(s)[0] == dc_bin(s.len() as int, c),
{
    assert forall|j: int| 0 <= j < s.len() implies #[trigger] dft_bin(s, 0)[j] == if j == 0 {
        s.len() * c
    } else {
        0
    } by {
        lemma_constant_bin_zero(s, c, j, s.len() as int);
    }
    assert(dft_bin(s, 0) =~= dc_bin(s.len() as int, c));
}


/// A bin whose value is zero: its coefficients repeat after half a turn, so that
/// `w^(N/2) == -1` cancels each coefficient against its partner.
pub open spec fn cancels(c: Seq<int>) -> bool {
    &&& c.len() % 2 == 0
    &&& forall|j: int| 0 <= j < c.len() / 2 ==> #[trigger] c[j] == c[j + c.len() / 2]
}

/// The bin of a constant signal of value `c` and length `n` at frequency zero.
pub open spec fn dc_bin(n: int, c: int) -> Seq<int> {
    Seq::new(n as nat, |j: int| if j == 0 { n * c } else { 0 })
}

proof fn lemma_constant_halves(s: Seq<int>, c: int)
    requires
        s.len() % 2 == 0,
        forall|m: int| 0 <= m < s.len() ==> #[trigger] s[m] == c,
    ensures
        forall|m: int| 0 <= m < evens(s).len() ==> #[trigger] evens(s)[m] == c,
        forall|m: int| 0 <= m < odds(s).len() ==> #[trigger] odds(s)[m] == c,
        evens(s).len() == s.len() / 2,
        odds(s).len() == s.len() / 2,
{
    assert forall|m: int| 0 <= m < evens(s).len() implies #[trigger] evens(s)[m] == c by {
        assert(s[2 * m] == c);
    }
    assert forall|m: int| 0 <= m < odds(s).len() implies #[trigger] odds(s)[m] == c by {
        assert(s[2 * m + 1] == c);
    }
}

/// The radix-2 recursion on a constant signal: every bin but bin 0 cancels.
proof fn lemma_constant_fft_cancels(s: Seq<int>, c: int)
    requires
        is_pow2(s.len() as int),
        forall|m: int| 0 <= m < s.len() ==> #[trigger] s[m] == c,
    ensures
        forall|k: int| 1 <= k < s.len() ==> cancels(#[trigger] fft_spec(s)[k]),
    decreases s.len(),
{
    let n = s.len() as int;
    if n > 1 {
        let h = n / 2;
        assert(n % 2 == 0 && is_pow2(h));
        lemma_constant_halves(s, c);
        let ev = evens(s);
        let ov = odds(s);
        lemma_constant_fft_cancels(ev, c);
        lemma_constant_fft_cancels(ov, c);
        lemma_fft_is_dft(ev);
        lemma_fft_is_dft(ov);
        lemma_constant_signal_dc(ev, c);
        lemma_constant_signal_dc(ov, c);
        let fe = fft_spec(ev);
        let fo = fft_spec(ov);
        assert forall|k: int| 1 <= k < n implies cancels(#[trigger] fft_spec(s)[k]) by {
            let kk = k % h;
            let b = fft_spec(s)[k];
            assert(b == Seq::new(s.len(), |j: int| butterfly_coef(fe[kk], fo[kk], k, n, j)));
            assert forall|j: int| 0 <= j < h implies #[trigger] b[j] == b[j + h] by {
                lemma_half_turn(fe[kk], fo[kk], k, n, j, c, kk);
            }
        }
    }
}

proof fn lemma_half_turn(e: Seq<int>, o: Seq<int>, k: int, n: int, j: int, c: int, kk: int)
    requires
        n % 2 == 0,
        0 < n,
        1 <= k < n,
        0 <= j < n / 2,
        kk == k % (n / 2),
        e.len() == n / 2,
        o.len() == n / 2,
        kk == 0 ==> e == dc_bin(n / 2, c) && o == dc_bin(n / 2, c),
        kk != 0 ==> cancels(e) && cancels(o),
    ensures
        butterfly_coef(e, o, k, n, j) == butterfly_coef(e, o, k, n, j + n / 2),
{
    let h = n / 2;
    let d = (j - k) % n;
    let d2 = (j + h - k) % n;
    lemma_add_mod_noop(j - k, h, n);
    vstd::arithmetic::div_mod::lemma_small_mod(h as nat, n as nat);
    assert(0 <= d < n);
    if d < h {
        vstd::arithmetic::div_mod::lemma_small_mod((d + h) as nat, n as nat);
        assert(d2 == d + h);
    } else {
        lemma_fundamental_div_mod_converse(d + h, n, 1, d - h);
        assert(d2 == d - h);
    }
    if kk == 0 {
        assert(k == h) by {
            if k < h {
                vstd::arithmetic::div_mod::lemma_small_mod(k as nat, h as nat);
            } else {
                lemma_fundamental_div_mod_converse(k, h, 1, k - h);
            }
        }
        if j < h {
            lemma_fundamental_div_mod_converse(j - h, n, -1, j + h);
        }
        assert(d == j + h);
        assert(d2 == j);
    } else {
        assert(h % 2 == 0) by {
            if h % 2 != 0 {
                assert(h == 1);
                assert(kk == 0) by {
                    vstd::arithmetic::div_mod::lemma_mod_self_0(1);
                    assert(k % 1 == 0);
                }
            }
        }
        if j % 2 == 0 {
            assert(e[j / 2] == e[j / 2 + h / 2]);
        }
        if d % 2 == 0 {
            if d < h {
                assert(o[d / 2] == o[d / 2 + h / 2]);
            } else {
                assert(o[d2 / 2] == o[d2 / 2 + h / 2]);
            }
        }
    }
}

/// A constant signal of value `c` and power-of-two length `N`: bin 0 holds `N * c` on
/// `w^0` and nothing else, and every other bin cancels to zero.
pub proof fn lemma_constant_signal_spectrum(s: Seq<int>, c: int)
    requires
        is_pow2(s.len() as int),
        forall|m: int| 0 <= m < s.len() ==> #[trigger] s[m] == c,
    ensures
        dft_spec(s)[0] == dc_bin(s.len() as int, c),
        forall|k: int| 1 <= k < s.len() ==> cancels(#[trigger] dft_spec(s)[k]),
{
    lemma_constant_signal_dc(s, c);
    lemma_constant_fft_cancels(s, c);
    lemma_fft_is_dft(s);
}

} // verus!
