//! Decoders and a classifier for broadcast advertisements of two families of
//! wireless environmental sensors.
//!
//! Advertisements arrive as untyped events carrying vendor-keyed binary
//! blobs. The library classifies each event by its broadcast name prefix and
//! vendor key, decodes the matching fixed-layout payload into a [`Record`],
//! and drops everything else. Radio control, name resolution and persistence
//! are left to the caller.

pub mod classify;
pub mod decode;
pub mod record;

pub use classify::Advertisement;
pub use record::Record;
