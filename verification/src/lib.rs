//! Signal conditioning and scan protocol for an analog keypad.
//!
//! The keypad hangs on two analog buses that share one 4-bit multiplexer
//! address. Every key is a continuous sensor whose reading drops while the
//! key is held down. This crate holds the decisions of the firmware: how a
//! channel index becomes a select-line pattern, how conversions become a
//! reading, how readings become press and release events, and in which
//! order the channels are addressed and sampled. The hardware itself stays
//! with the caller, who performs each [`scan::Action`] and reports back
//! with an [`scan::Event`].

pub mod consts;
pub mod filter;
pub mod mux;
pub mod sampler;
pub mod table;
pub mod scan;
pub mod calibrate;
