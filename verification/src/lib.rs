//! An audio-plugin parameter engine.
//!
//! The engine maps control values between a normalized range and plain
//! domain units through configurable response curves, smooths parameter
//! changes per sample so the audio path never jumps, and carries edits
//! between the audio side and the UI side through a bounded, coalescing
//! bridge of one slot per parameter.
//!
//! All values are fixed-point integers: a normalized value runs from `0`
//! to [`curve::NORM_ONE`] (one unit is one millionth), and a plain value
//! is a count of millionths of the descriptor's domain unit (for a gain
//! parameter, millionths of a decibel).

pub mod bridge;
pub mod curve;
pub mod mirror;
pub mod model;
pub mod smoother;
pub mod text;
