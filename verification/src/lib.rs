//! Verified core of a bridge that offers the Poe chat service through an
//! OpenAI-compatible interface.
//!
//! The library decides and computes: how reasoning blocks are rewritten, how a
//! stream of events becomes response frames, which model a request names, which
//! headers a reply carries. Sockets, files and locks stay with the program that
//! uses it.

pub mod text;
pub mod tags;
pub mod reasoning;
pub mod rounding;
pub mod units;
pub mod thinking_stream;
pub mod types;
pub mod settings;
pub mod config;
pub mod config_cache;
pub mod errors;
pub mod models;
pub mod events;
pub mod identity;
pub mod replace;
pub mod answer;
pub mod stream;
pub mod headers;
pub mod cors;
pub mod content;
pub mod sse;
pub mod chat;
pub mod laws;
