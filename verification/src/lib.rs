//! Core of a push-to-talk voice capture tool: a capture engine that collects
//! microphone samples while a recording is active and turns them into 16 kHz
//! 16-bit PCM, and a supervisor for the external transcription server.
//!
//! The library performs no I/O. Device streams, child processes and clocks
//! belong to the caller, which reports what happened and carries out what the
//! library decides.

pub mod audio_manager;
pub mod binary32;
pub mod pcm;
pub mod resampler;
pub mod server_manager;
pub mod text;
pub mod transcript;
