//! Core of a chat-to-speech pipeline: protocol parsing, message
//! normalisation, filtering and pacing, bounded queueing, per-channel
//! lifecycle, dispatch planning, and playback fan-out.

pub mod config;
pub mod fanout;
pub mod filter;
pub mod message;
pub mod queue;
pub mod service;
pub mod synth;
pub mod text;
pub mod twitch;
pub mod wire;
pub mod youtube;
