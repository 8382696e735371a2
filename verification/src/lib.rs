//! Deterministic image preparation for text recognition.
//!
//! A raster image is held as a [`buffer::PixelBuffer`]; every stage takes one
//! buffer and gives a new one. All arithmetic is integer arithmetic: real-valued
//! parameters and scores are carried in thousandths.

pub mod binarization;
pub mod borders;
pub mod buffer;
pub mod enhance;
pub mod error;
pub mod morphology;
pub mod numeric;
pub mod pipeline;
pub mod quality;
pub mod skew;
pub mod tone;
pub mod window;
