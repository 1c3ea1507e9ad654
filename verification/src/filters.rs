//! The band-limiting stage: coefficient derivation and the biquad section.

pub mod biquad;
pub mod coefficients;
