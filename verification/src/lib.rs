//! A verified model of a rotating, append-only log sink.
//!
//! The library decides when an active log file must be retired (by a size
//! threshold or a time interval), allocates collision-free names for its
//! successors, and tracks the handoff of retired files to background
//! compression.  Time formatting and the compression codecs themselves are
//! supplied by outside crates through trusted wrappers.

pub mod codec;
pub mod laws;
pub mod naming;
pub mod policy;
pub mod rotation;
pub mod sink;
pub mod timefmt;

pub use policy::Compression;
pub use policy::RotationPolicy;
