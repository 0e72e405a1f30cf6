//! Verified core of a vendor-directory synchronization tool.
//!
//! Given an already-resolved set of packages, the library plans where each
//! package lands in the vendor directory, selects the files that belong to
//! the published package, records content checksums, deduplicates
//! conflicting versions, prunes stale entries from earlier runs, and builds
//! the replacement-source configuration a build tool needs to consume the
//! vendor directory. All filesystem work and process plumbing live outside
//! the library; it computes over plain values.

pub mod config;
pub mod digest;
pub mod engine;
pub mod files;
pub mod hexfmt;
pub mod laws;
pub mod origin;
pub mod package;
pub mod plan;
pub mod text;
pub mod version;

pub use hexfmt::hex;
