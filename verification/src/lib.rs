//! Core of a push-to-talk dictation client.

pub mod asr;
pub mod asr_laws;
pub mod bytes;
pub mod config;
pub mod engine;
pub mod engine_laws;
pub mod frame_laws;
pub mod handshake;
pub mod handshake_laws;
pub mod logger;
pub mod outside;
pub mod recorder;
pub mod service_laws;
pub mod text;
pub mod text_laws;
pub mod upkeep;
pub mod url;
pub mod ws;
pub mod ws_laws;
