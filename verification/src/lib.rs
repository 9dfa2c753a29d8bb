//! A verified 2-D graph layout engine.
//!
//! The library parses a textual graph description, computes vertex
//! positions on a bounded canvas with one of seven layout algorithms,
//! and renders the result back to text.  All coordinates are held in
//! fixed-point micro-units (one canvas unit is 1_000_000 micro-units),
//! so every step of the numerical work is carried out in verified
//! integer arithmetic.

pub mod claims;
pub mod codec;
pub mod distances;
pub mod error;
pub mod facade;
pub mod fixed;
pub mod force;
pub mod graph;
pub mod metric;
pub mod rng;
pub mod trig;
