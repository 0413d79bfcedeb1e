//! Pitch estimation on fixed-point spectra.
//!
//! The analysis starts from the complex coefficients of a transformed
//! buffer of samples and works in integers throughout: frequencies are
//! millihertz, magnitudes are squared fixed-point amplitudes, and shares
//! are compared by cross-multiplication, so that every decision is exact.
//!
//! - [`spectrum`] turns coefficients into a band-passed power spectrum.
//! - [`peaks`] picks the peaks of a power spectrum.
//! - [`estimator`] estimates the fundamental frequency from the peaks.
//! - [`notes`] holds the table of notes and names a frequency.
//! - [`pitch`] runs the stages one after the other.
//!
//! The modules whose names end in `_laws` state and prove what holds of the
//! results.

pub mod estimator;
pub mod estimator_laws;
pub mod note_laws;
pub mod notes;
pub mod peak_laws;
pub mod peaks;
pub mod pitch;
pub mod spectrum;
pub mod units;
