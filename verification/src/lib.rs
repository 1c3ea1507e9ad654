//! Fixed-point core of a coloured-noise audio effect.
//!
//! - [`fixed`]: the numbers, decimal fixed point with saturating arithmetic;
//! - [`math`]: cosine, sine, exponential and square root on them;
//! - [`filters`]: biquad coefficients and the biquad section;
//! - [`envelope`]: the envelope follower;
//! - [`noise`]: the white, pink, brown and violet generators and the engine
//!   that filters their output and mixes it with the dry signal;
//! - [`params`]: the control values with their defaults and ranges;
//! - [`buffer`]: a block of audio;
//! - [`spectrum`]: framing, windowing and smoothing for a spectrum display;
//! - [`config`]: telemetry for a debug display.
//!
//! Every quantity is a [`fixed::Fixed`], a signed count of billionths. All
//! arithmetic rounds toward zero and saturates at the ends of the range, so
//! no operation can fail and every result is stated exactly.

pub mod buffer;
pub mod config;
pub mod envelope;
pub mod filters;
pub mod fixed;
pub mod math;
pub mod noise;
pub mod params;
pub mod spectrum;
