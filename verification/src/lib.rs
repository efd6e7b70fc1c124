//! Dominant-frequency analysis of framed audio spectra.

pub mod analysis;
pub mod band;
pub mod framing;
pub mod laws;
pub mod peaks;
