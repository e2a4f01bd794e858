//! A library for hiding text messages inside PNG files.
//!
//! A PNG file is modelled as a fixed 8-byte signature followed by an ordered
//! sequence of chunk records.  Each record carries a big-endian length, a
//! 4-byte ASCII type tag, a payload, and a CRC-32 checksum over the type and
//! payload bytes.  The library parses and serializes these records, verifies
//! checksums, and supports appending, finding and removing chunks by type.

pub mod chunk;
pub mod chunk_type;
pub mod endian;
pub mod png;
pub mod text;
