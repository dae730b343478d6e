//! Verified core of a note-list synthesiser.
//!
//! A list of notes is validated, laid out on a sample grid, rendered
//! through a numeric kernel supplied by the caller, quantised to 16-bit PCM
//! and framed as a RIFF/WAVE byte stream.
//!
//! Real numbers travel as binary64 bit patterns ([`scalar::Scalar`]), and
//! the library itself never rounds one. What is rational is computed
//! exactly and proved against the real number it stands for: the order of
//! two scalars, the count of samples in a time, the envelope's factor, the
//! PCM value of a sample. What cannot be had without rounding (a sine, a
//! power, `tanh`, the running sum of a mix) is reached only through the
//! [`kernel::Kernel`] trait, whose methods promise nothing, so every
//! contract in this crate holds for any kernel.

pub mod accumulator;
pub mod adsr;
pub mod cli;
pub mod envelope_laws;
pub mod errors;
pub mod grid;
pub mod kernel;
pub mod orchestrator;
pub mod oscillator;
pub mod pitch;
pub mod scalar;
pub mod timeline_orchestrator;
pub mod validation;
pub mod wav;
