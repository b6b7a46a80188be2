//! Core library of a streaming text-to-speech service.
//!
//! The library holds the verified logic of the service: request
//! validation, the punctuation-aware text chunker, the WAV encoder,
//! the bounded caches for synthesizers and rendered utterances, the
//! conversation manager, the streaming hop accumulator, and the
//! metrics bookkeeping.  I/O, the HTTP surface and the neural
//! synthesizer itself live outside the library and hand plain values
//! in and out.

pub mod chunker;
pub mod clean_text;
pub mod config;
pub mod conversation;
pub mod error;
pub mod manager;
pub mod metrics;
pub mod pipeline;
pub mod registry;
pub mod response_cache;
pub mod stream;
pub mod synth_cache;
pub mod validation;
pub mod wav;
