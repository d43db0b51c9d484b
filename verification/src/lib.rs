//! The core of an audio visualiser: it takes in frames of frequency
//! magnitudes, reduces and smooths them, keeps a bounded history of them, and
//! makes copies of that history ready for a mesh builder.
//!
//! A frame is a `Vec<u32>` of samples, one for each bar. A sample is a
//! magnitude counted in a unit that the caller picks; it is never negative.
//! Fractional settings are counted in thousandths (see [`fixed`]).
//!
//! The actor of [`bridge`] owns the state. It is driven from outside: the
//! caller hands it one event at a time and does what the answer asks for.

pub mod fixed;
pub mod config;
pub mod reduction;
pub mod gravity;
pub mod depth;
pub mod mesh;
pub mod bridge;
