//! Closed measurement kernels for analog characterization — coherent single-tone spectral
//! metrics (SNR, SINAD, THD, SFDR) and AC transfer metrics (gain, bandwidth, unity-gain
//! frequency, phase margin).
//!
//! Each kernel fixes one method, documents every choice, and refuses inputs it cannot measure
//! that way. Here stand the decisions of both methods (record and sweep validation, harmonic
//! folding and collisions, the spur, the peak and the crossings), the alignment ladder every
//! result carries, the line-oriented input formats and the non-numeric parts of the reports.
//! Values are compared through their binary64 bit patterns; the spectrum, the interpolation and
//! the ratios in dB are floating-point arithmetic done around these decisions.

pub mod alignment;
pub mod binary64;
pub mod job;
pub mod report;
pub mod spectral;
pub mod text;
pub mod transfer;

use vstd::prelude::*;

verus! {

/// The version of these definitions.
pub const VERSION: &'static str = "0.1.0";

/// The copyright line the command prints with its version.
pub const COPYRIGHT: &'static str = "Copyright (c) 2026 Vyges — Apache-2.0";

} // verus!
