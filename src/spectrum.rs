//! The frequency axis of a spectrum.
use vstd::prelude::*;
use crate::transform::TransformError;

verus! {

/// Frequency of bin `k` of an `n`-bin spectrum, in millihertz, rounded down:
/// `floor(1000 * k * sample_rate / n)`.
pub open spec fn bin_millihertz(k: int, sample_rate: int, n: int) -> int {
    (1000 * k * sample_rate) / n
}

/// The frequency of each of the `n` bins of a spectrum of a signal sampled
/// `sample_rate` times a second, in millihertz. An empty spectrum and a zero sample
/// rate are refused.
pub fn frequency_axis(sample_rate: u32, n: usize) -> (r: Result<Vec<u64>, TransformError>)
    ensures
        n == 0 <==> r == Err::<Vec<u64>, TransformError>(TransformError::EmptySignal),
        (n > 0 && sample_rate == 0) <==> r == Err::<Vec<u64>, TransformError>(
            TransformError::NumericDegenerate,
        ),
        r is Ok <==> (n > 0 && sample_rate > 0),
        r matches Ok(axis) ==> axis.len() == n && forall|k: int|
            0 <= k < n ==> #[trigger] axis[k] == bin_millihertz(k, sample_rate as int, n as int),
{
    if n == 0 {
        return Err(TransformError::EmptySignal);
    }
    if sample_rate == 0 {
        return Err(TransformError::NumericDegenerate);
    }
    let mut axis: Vec<u64> = Vec::new();
    let mut k: usize = 0;
    while k < n
        invariant
            0 < n,
            k <= n,
            axis.len() == k,
            forall|i: int|
                0 <= i < k ==> #[trigger] axis[i] == bin_millihertz(i, sample_rate as int, n as int),
        decreases n - k,
    {
        proof {
            assert(1000 * (k as int) * (sample_rate as int) < 0x1_0000_0000_0000_0000_0000_0000_0000) by (nonlinear_arith)
                requires k < 0x1_0000_0000_0000_0000int, sample_rate < 0x1_0000_0000int;
            assert(1000 * (k as int) * (sample_rate as int) <= 1000 * (n as int) * (sample_rate as int)) by (nonlinear_arith)
                requires k < n;
            assert((1000 * (k as int) * (sample_rate as int)) / (n as int) <= 1000 * (sample_rate as int)) by (nonlinear_arith)
                requires k < n, 0 < n;
        }
        let scaled: u128 = 1000u128 * (k as u128) * (sample_rate as u128);
        axis.push((scaled / (n as u128)) as u64);
        k += 1;
    }
    Ok(axis)
}

} // verus!
