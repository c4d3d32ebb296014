//! Perceptual average-hash fingerprints for images.
//!
//! A [`buffer::HashBuilder`] packs individual bits into 64-bit words and
//! freezes into an immutable [`buffer::Hash`], which renders as
//! hexadecimal text of exactly `ceil(bits / 4)` digits. The pipeline in
//! [`pipeline`] decodes an image, downsamples it to a small grayscale
//! grid, thresholds every pixel against the grid's average intensity,
//! and packs one bit per pixel into such a buffer. The module [`model`]
//! holds the mathematical account of both, and [`laws`] the properties
//! proved of every hash.

pub mod buffer;
pub mod error;
pub mod laws;
pub mod model;
pub mod pipeline;
