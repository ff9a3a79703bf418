//! Signal sources: a sinusoid given by its phase, and a random complex walk in fixed point.
use vstd::prelude::*;
use rand::Rng;

verus! {

/// The phase of a sinusoid sample, in turns: `turns_num / turns_den`. The sample value
/// is `sin(2 * pi * turns_num / turns_den)`.
#[derive(Clone, Copy, Debug, PartialEq, Eq, Structural)]
pub struct Phase {
    pub turns_num: u64,
    pub turns_den: u32,
}

/// A sinusoid generator: sample `n` (counted from 1) lies at phase
/// `freq * n / sample_rate` turns.
pub struct Sine {
    freq: u32,
    sample_rate: u32,
    samples_nr: u32,
}

impl Sine {
    /// Frequency in hertz.
    pub closed spec fn frequency(&self) -> nat {
        self.freq as nat
    }

    /// Samples per second.
    pub closed spec fn rate(&self) -> nat {
        self.sample_rate as nat
    }

    /// Number of samples produced so far, modulo `2^32`.
    pub closed spec fn produced(&self) -> nat {
        self.samples_nr as nat
    }

    /// A generator of a `freq` hertz tone sampled `sample_rate` times a second.
    pub fn new(freq: u32, sample_rate: u32) -> (r: Self)
        ensures
            r.frequency() == freq,
            r.rate() == sample_rate,
            r.produced() == 0,
    {
        Sine { freq, sample_rate, samples_nr: 0 }
    }

    /// Advances to the next sample and returns its phase.
    pub fn next_phase(&mut self) -> (r: Phase)
        ensures
            final(self).frequency() == old(self).frequency(),
            final(self).rate() == old(self).rate(),
            final(self).produced() == (old(self).produced() + 1) % 0x1_0000_0000,
            r.turns_num == old(self).frequency() * final(self).produced(),
            r.turns_den == old(self).rate(),
    {
        self.samples_nr = self.samples_nr.wrapping_add(1);
        assert((self.freq as int) * (self.samples_nr as int) <= 0xffff_ffff_ffff_ffff) by (
        nonlinear_arith)
            requires
                self.freq <= 0xffff_ffff,
                self.samples_nr <= 0xffff_ffff,
        ;
        Phase { turns_num: self.freq as u64 * self.samples_nr as u64, turns_den: self.sample_rate }
    }
}

impl Default for Sine {
    fn default() -> (r: Self)
        ensures
            r.frequency() == 2000,
            r.rate() == 44000,
            r.produced() == 0,
    {
        Sine { freq: 2000, sample_rate: 44000, samples_nr: 0 }
    }
}

/// A complex value in fixed point: each component counts units of `1 / FIXED_ONE`.
#[derive(Clone, Copy, Debug, PartialEq, Eq, Structural)]
pub struct FixedComplex {
    pub re: i64,
    pub im: i64,
}

/// Fixed-point units in one.
pub const FIXED_ONE: i32 = 1024;

/// Lower end of the default step range, one half.
pub const DEFAULT_STEP_LOW: i32 = 512;

/// Upper end (excluded) of the default step range, one.
pub const DEFAULT_STEP_HIGH: i32 = 1024;

/// Largest magnitude of a walk component that a step may start from.
pub const WALK_BOUND: i64 = 0x4000_0000_0000_0000;

/// Relies on rand's `Rng::random_range` on the thread generator: a value drawn from
/// `low..high`, which it documents as panicking only when the range is empty.
#[verifier::external_body]
fn draw_in_range(low: i32, high: i32) -> (r: i32)
    requires
        low < high,
    ensures
        low <= r < high,
{
    rand::rng().random_range(low..high)
}

/// Position `i` of `v` moves each component of the position before it (of `start`,
/// for the first) by an amount in `low..high`.
pub open spec fn step_within(v: Seq<FixedComplex>, start: FixedComplex, low: int, high: int, i: int) -> bool {
    let prev = if i == 0 { start } else { v[i - 1] };
    &&& low <= v[i].re - prev.re < high
    &&& low <= v[i].im - prev.im < high
}

/// `v` is a walk from `start` with steps in `low..high`.
pub open spec fn is_walk(v: Seq<FixedComplex>, start: FixedComplex, low: int, high: int) -> bool {
    forall|i: int| 0 <= i < v.len() ==> #[trigger] step_within(v, start, low, high, i)
}

proof fn lemma_walk_increases_between(
    v: Seq<FixedComplex>,
    start: FixedComplex,
    low: int,
    high: int,
    i: int,
    j: int,
)
    requires
        is_walk(v, start, low, high),
        0 < low,
        0 <= i < j < v.len(),
    ensures
        v[i].re < v[j].re,
        v[i].im < v[j].im,
    decreases j - i,
{
    assert(step_within(v, start, low, high, j));
    if i < j - 1 {
        lemma_walk_increases_between(v, start, low, high, i, j - 1);
    }
}

/// With steps drawn from a range of positive values, a walk drifts upwards: each
/// component grows strictly from one position to any later one.
pub proof fn lemma_walk_drifts_upwards(v: Seq<FixedComplex>, start: FixedComplex, low: int, high: int)
    requires
        is_walk(v, start, low, high),
        0 < low,
    ensures
        forall|i: int, j: int|
            #![trigger v[i], v[j]]
            0 <= i < j < v.len() ==> v[i].re < v[j].re && v[i].im < v[j].im,
{
    assert forall|i: int, j: int|
        #![trigger v[i], v[j]]
        0 <= i < j < v.len() implies v[i].re < v[j].re && v[i].im < v[j].im by {
        lemma_walk_increases_between(v, start, low, high, i, j);
    }
}

/// A random walk in the complex plane: each step adds to each component a value drawn
/// from `step_low..step_high`. With the default range both components drift upwards.
pub struct RandComplex {
    complex: FixedComplex,
    step: i32,
    step_low: i32,
    step_high: i32,
}

impl RandComplex {
    /// The current position.
    pub closed spec fn position(&self) -> FixedComplex {
        self.complex
    }

    /// The range steps are drawn from: `low..high`.
    pub closed spec fn step_range(&self) -> (int, int) {
        (self.step_low as int, self.step_high as int)
    }

    /// The last step drawn, or the initial step when none was drawn yet.
    pub closed spec fn last_step(&self) -> int {
        self.step as int
    }

    /// A walk starting at `opt_complex` (the origin when none is given), with steps
    /// drawn from one half to one.
    pub fn default(step: i32, opt_complex: Option<FixedComplex>) -> (r: Self)
        ensures
            r.position() == (match opt_complex {
                Some(c) => c,
                None => FixedComplex { re: 0, im: 0 },
            }),
            r.step_range() == (DEFAULT_STEP_LOW as int, DEFAULT_STEP_HIGH as int),
            r.last_step() == step,
    {
        let complex = match opt_complex {
            Some(c) => c,
            None => FixedComplex { re: 0, im: 0 },
        };
        RandComplex { complex, step, step_low: DEFAULT_STEP_LOW, step_high: DEFAULT_STEP_HIGH }
    }

    /// A walk starting at `start` with steps drawn from `low..high`; `None` when the
    /// range is empty.
    pub fn with_step_range(start: FixedComplex, low: i32, high: i32) -> (r: Option<Self>)
        ensures
            low >= high <==> r is None,
            r matches Some(w) ==> w.position() == start && w.step_range() == (
                low as int,
                high as int,
            ) && w.last_step() == 0,
    {
        if low >= high {
            None
        } else {
            Some(RandComplex { complex: start, step: 0, step_low: low, step_high: high })
        }
    }

    /// The first `samples_nr` positions of a walk from the origin with the default
    /// step range.
    pub fn random_vec(samples_nr: usize, step: i32) -> (r: Option<Vec<FixedComplex>>)
        requires
            samples_nr <= 0x4000_0000,
        ensures
            r matches Some(v) && v.len() == samples_nr && is_walk(
                v@,
                (FixedComplex { re: 0, im: 0 }),
                DEFAULT_STEP_LOW as int,
                DEFAULT_STEP_HIGH as int,
            ),
    {
        let mut walk = RandComplex::default(step, None);
        let mut v: Vec<FixedComplex> = Vec::new();
        let mut i: usize = 0;
        while i < samples_nr
            invariant
                samples_nr <= 0x4000_0000,
                i <= samples_nr,
                v.len() == i,
                walk.step_range() == (DEFAULT_STEP_LOW as int, DEFAULT_STEP_HIGH as int),
                i == 0 ==> walk.position() == (FixedComplex { re: 0, im: 0 }),
                i > 0 ==> walk.position() == v[i - 1],
                0 <= walk.position().re <= i * 1024,
                0 <= walk.position().im <= i * 1024,
                is_walk(
                    v@,
                    (FixedComplex { re: 0, im: 0 }),
                    DEFAULT_STEP_LOW as int,
                    DEFAULT_STEP_HIGH as int,
                ),
            decreases samples_nr - i,
        {
            let p = walk.next();
            let ghost before = v@;
            v.push(p);
            proof {
                let start = FixedComplex { re: 0, im: 0 };
                let (lo, hi) = (DEFAULT_STEP_LOW as int, DEFAULT_STEP_HIGH as int);
                assert forall|m: int| 0 <= m < v@.len() implies #[trigger] step_within(
                    v@,
                    start,
                    lo,
                    hi,
                    m,
                ) by {
                    if m < before.len() {
                        assert(step_within(before, start, lo, hi, m));
                    }
                }
            }
            i += 1;
        }
        Some(v)
    }

    /// Takes one step and returns the new position.
    pub fn next(&mut self) -> (r: FixedComplex)
        requires
            -WALK_BOUND <= old(self).position().re <= WALK_BOUND,
            -WALK_BOUND <= old(self).position().im <= WALK_BOUND,
            old(self).step_range().0 < old(self).step_range().1,
        ensures
            final(self).step_range() == old(self).step_range(),
            final(self).position() == r,
            old(self).step_range().0 <= r.re - old(self).position().re < old(self).step_range().1,
            old(self).step_range().0 <= r.im - old(self).position().im < old(self).step_range().1,
            final(self).last_step() == r.im - old(self).position().im,
    {
        self.step = draw_in_range(self.step_low, self.step_high);
        self.complex.re = self.complex.re + self.step as i64;
        self.step = draw_in_range(self.step_low, self.step_high);
        self.complex.im = self.complex.im + self.step as i64;
        self.complex
    }
}

} // verus!
