//! What happens to sound between the microphone and a file.

pub mod normalizer;
pub mod realtime_mixer;
pub mod timeline;
