//! Exact spectral analysis of sampled signals.
//!
//! Signals are integer sample buffers. A frequency bin is kept exactly, as the
//! integer coefficients of the powers of the root of unity `w = exp(-2*pi*i/N)`:
//! `bin[k] = sum_j coef[j] * w^j`. Turning a bin into a floating-point complex
//! value is a single evaluation left to the caller.
use vstd::prelude::*;

pub mod gui;
pub mod phasor;
pub mod signal;
pub mod spectrum;
pub mod transform;
