//! Verified core of a real-time speech translator: audio sources and
//! conversion, speech recognition decisions, cached translation, and the
//! pipeline that joins them.
pub mod asr;
pub mod audio;
pub mod commands;
pub mod pipeline;
pub mod state;
pub mod text;
pub mod translation;
