//! Timecode decoding for digital vinyl systems.
//!
//! A timecode record carries a maximal-length bit sequence on a two-channel
//! carrier. This crate generates that sequence, builds the table that maps a
//! window of observed bits back to its place in the sequence, and tracks the
//! position and speed of the platter from a stream of stereo samples.

pub mod lfsr;
pub mod lut;
pub mod error;
pub mod definition;
pub mod pitch;
pub mod timecoder;

pub use crate::definition::{DefinitionView, Flags, TimecoderDef};
pub use crate::error::XwaxError;
pub use crate::lfsr::{fwd, lfsr, rev};
pub use crate::lut::Lut;
pub use crate::pitch::Pitch;
pub use crate::timecoder::{Elapsed, Postition, Timecoder, TimecoderView};
