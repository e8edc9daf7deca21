//! Beat-phase reconstruction and multi-deck dispatch for a live DJ setup.
//!
//! All timing quantities are fixed-point integers: tempo in micro-BPM, playback
//! speed in parts per million, elapsed time in microseconds and beat positions in
//! micro-beats. Sample positions count audio samples at a 44100 Hz reference rate.
pub mod change;
pub mod dmx;
pub mod identity;
pub mod keeper;
pub mod offsets;
pub mod phrase;
pub mod source;
pub mod text;
pub mod timing;
pub mod tracker;
