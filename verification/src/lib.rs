//! A verified model of a small signal-processing pipeline: two waveform
//! generators feed raw samples through a bounded queue into a smoothing
//! stage, whose raw/filtered pairs are drained by a host link that formats
//! them as text lines and applies single-byte tuning commands to a shared
//! noise-level knob.
//!
//! Signal values are carried as fixed-point integers in micro-units
//! (one unit is 1_000_000), so that the arithmetic of the pipeline can be
//! stated and proved exactly.

pub mod arith;
pub mod config;
pub mod entropy;
pub mod filter;
pub mod generator;
pub mod hostlink;
pub mod queue;
pub mod sample;
