//! The numeric kernel: the arithmetic that rounds.
//!
//! The library lays notes out on the sample grid, walks them sample by
//! sample and quantises what comes back, and all of that is exact. It never
//! rounds a number itself. What cannot be had without rounding (a
//! waveform's value, the scaling of an amplitude, the accumulation of a
//! mix, the saturating curve) is a method of [`Kernel`]. The methods promise
//! nothing: whatever a kernel returns, the contracts of the library hold,
//! and they say of each value that the library passes on which call, with
//! which arguments, returned it.

use crate::adsr::Gain;
use crate::pitch::Frequency;
use crate::scalar::Scalar;
use vstd::prelude::*;

verus! {

/// The arithmetic that rounds. An implementation may compute in any
/// precision: no contract of the library rests on what it returns.
pub trait Kernel {
    /// The sine generator: `amplitude * sin(2 pi * frequency * sample_index /
    /// sample_rate)`.
    fn sine(&self, frequency: Frequency, amplitude: Scalar, sample_rate: u32, sample_index: u32) -> Scalar;

    /// The shaped generator: the same phase as the sine generator, mapped
    /// through the periodic curve that the four control points define.
    fn shaped(
        &self,
        control_points: &Vec<Scalar>,
        frequency: Frequency,
        amplitude: Scalar,
        sample_rate: u32,
        sample_index: u32,
    ) -> Scalar;

    /// `amplitude * numerator / denominator`.
    fn scale_amplitude(&self, amplitude: Scalar, numerator: u32, denominator: u32) -> Scalar;

    /// `sum + raw * gain`, the gain taken at the sustain level `sustain`.
    fn mix(&self, sum: Scalar, raw: Scalar, gain: Gain, sustain: Scalar) -> Scalar;

    /// `tanh(sum)`.
    fn soft_clip(&self, sum: Scalar) -> Scalar;
}

} // verus!
