//! Audio sources and the integer side of audio conversion.
pub mod capture;
pub mod resampler;
