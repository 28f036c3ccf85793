//! Streaming transcoder between UTF-8 and CESU-8 (or Java's Modified UTF-8).

pub mod variant;
pub mod unit;
pub mod surrogate;
pub mod codec;
pub mod buffer;
pub mod engine;
pub mod stream;
pub mod memory;
pub mod laws;
pub mod outcomes;
