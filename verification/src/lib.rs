//! The decisions and data handling of a monophone speech-to-text program:
//! how audio is laid out, chosen and resampled, how a model is trained step by
//! step, and which stages one run goes through. Sample values are never looked
//! at, so every function here is generic in the sample type.

pub mod channels;
pub mod features;
pub mod listing;
pub mod name_map;
pub mod order;
pub mod phonemes;
pub mod playback;
pub mod resample;
pub mod schedule;
pub mod settings;
pub mod stages;
