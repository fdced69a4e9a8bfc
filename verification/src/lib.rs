//! Verified integer core of an escape-time fractal renderer.
//!
//! The floating-point work (mapping pixels into the complex plane, iterating
//! the orbit, converting HSL to RGB) belongs to the caller. This crate holds
//! what is decided over whole numbers: the iteration cap, the dense field of
//! iteration counts, its histogram, the cumulative hue table and the colour
//! policy.

pub mod color;
pub mod config;
pub mod escape;
pub mod field;
pub mod histogram;
pub mod hue;
pub mod tally;
