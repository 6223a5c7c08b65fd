//! Calibration constants of the keypad.

use vstd::prelude::*;

verus! {

/// A reading in the converter's native resolution, or a smoothed reading.
pub type Value = i16;

/// A released key is pressed once its smoothed reading has fallen below
/// its resting baseline by more than this many counts.
pub const PRESS_DELTA_THRESHOLD: i16 = -3;

/// A pressed key is released once its smoothed reading has come back
/// above this offset from its resting baseline.
pub const RELEASE_DELTA_THRESHOLD: i16 = -1;

/// Smoothing exponent: each update moves the smoothed reading
/// `1 / 2^KEYPRESS_FILTER_SHIFT` of the way toward the new sample.
pub const KEYPRESS_FILTER_SHIFT: i16 = 2;

/// Number of channels behind the multiplexer.
pub const CHANNELS: usize = 16;

/// Number of binary select lines that address the multiplexer.
pub const SELECT_LINES: usize = 4;

} // verus!
