//! A single-threaded, reactor-based runtime core for TCP services that speak
//! length-delimited, typed messages.
//!
//! The crate is split into leaf-first layers: a byte ring [`buffer::Buffer`],
//! big-endian wire primitives in [`wire`], the pluggable codec layer
//! ([`headbody`], [`pw`], [`memcached`], [`json`]), and the event-loop state
//! machines ([`looper`], [`stream`], [`listen`], [`service`]). The state
//! machines are pure: readiness events and transport outcomes come in as
//! plain values, and the I/O work they decide on goes out as action values
//! for the caller to perform.

pub mod buffer;
pub mod config;
pub mod events;
pub mod headbody;
pub mod json;
pub mod listen;
pub mod looper;
pub mod memcached;
pub mod pw;
pub mod service;
pub mod stream;
pub mod wire;
