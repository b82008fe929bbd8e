//! Core of a multi-track audio playback engine: sample-accurate loopable
//! sources, track sequencing and scheduling, a mixing pipeline with a shared
//! playback clock, and a per-track beat-feature index used to seed loop
//! boundaries and answer transition queries.

pub mod timing;
pub mod controller;
pub mod source;
pub mod beat_index;
pub mod audio_data;
pub mod clip;
pub mod track;
pub mod engine;
pub mod app_state;
