//! Planning of SPK ephemeris kernels from sampled multi-body trajectories.
//!
//! The crate holds the decisions of a pipeline that samples the states of a
//! set of bodies and serializes them into a binary ephemeris kernel:
//!
//! - `resolver` turns body names into numeric identifiers;
//! - `constant` and `sampler` decide the outcome of retrieving a constant or
//!   a state, and compose the states of one instant into a flat buffer;
//! - `fraction` validates the retention fraction and derives the stride;
//! - `downsampling` retains every stride-th element of a timeline;
//! - `blocks` gathers one body's state table out of a state series;
//! - `kernel` plans what a kernel file is to hold: the retained epochs, the
//!   observer's reference table and one segment for each other body;
//! - `tables` builds the table that the engine is handed for a segment;
//! - `lifecycle` sequences the open, append and close calls of the write;
//! - `error` and `text` hold the failures and their messages.
//!
//! Sampled values are moved and never computed with: the crate is generic
//! in the scalar type, and the caller supplies the arithmetic. Apart from the
//! lookup of body names, the ephemeris engine is driven by the caller;
//! nothing here touches a file.

pub mod blocks;
pub mod constant;
pub mod downsampling;
pub mod error;
pub mod fraction;
pub mod kernel;
pub mod lifecycle;
pub mod resolver;
pub mod sampler;
pub mod tables;
pub mod text;
