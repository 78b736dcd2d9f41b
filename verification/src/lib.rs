//! The decision core of NBP, a meeting and dictation recorder.
//!
//! Everything here works on plain values. Files, processes, audio devices,
//! windows and the network belong to the application that drives this library.

pub mod text;
pub mod json;
pub mod records;
pub mod time;
pub mod frontmatter;
pub mod seqs;
pub mod notion;
pub mod paths;
pub mod config;
pub mod pipelines;
pub mod sorting;
pub mod ids;
pub mod storage;
pub mod pipeline_engine;
pub mod transcript_migration;
pub mod transcription;
pub mod prompt_templates;
pub mod capture_coordinator;
pub mod call_session;
pub mod parakeet_worker;
pub mod audio_processing;
pub mod mic_audio;
pub mod audio;
pub mod devices;
pub mod artifacts;
pub mod cli_agent;
pub mod anthropic;
pub mod integrations;
pub mod shortcuts;
pub mod tray;
pub mod lifecycle;
pub mod dictation;
pub mod delivery;
pub mod streaming;
pub mod realtime_transcription;
pub mod call_detector;
pub mod playback;
