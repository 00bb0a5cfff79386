//! A per-sample digital signal processing graph engine with a radix-2 FFT
//! analyser, built over exact Q48 fixed-point sample arithmetic.
//!
//! Processors (oscillators, noise, envelopes, filters, dynamics and
//! composite containers) form an ownership tree that the client pulls one
//! sample at a time from the root.  Every numeric knob is a [`dsp::Parameter`]
//! whose effective value is its baseline plus the outputs of its modulator
//! generators.  Samples are `i64` values scaled by `2^48` (see [`fixed`]),
//! so every contract is an exact statement about integer arithmetic.

pub mod fixed;
pub mod math;
pub mod dsp;
pub mod fft;
pub mod laws;
pub mod wav;

pub use fixed::FP_ONE;
