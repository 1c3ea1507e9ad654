//! Amplitude tracking of the dry signal.

pub mod follower;
