//! A client-side codec for the packstream binary format and the chunked
//! framing that carries it over a byte stream.

pub mod markers;
pub mod endian;
pub mod value;
pub mod format;
pub mod serialize;
pub mod deserialize;
pub mod laws;
pub mod transport;
pub mod types;
pub mod decoder;
pub mod protocol;
pub mod handshake;
