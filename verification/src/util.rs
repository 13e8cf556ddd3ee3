//! Primitive little-endian codecs over in-memory byte streams.

pub mod error;
pub mod file;
