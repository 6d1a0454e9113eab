//! Path resolution, directory snapshots and name fingerprints for a local
//! media browser.
//!
//! The library decides; it never touches the filesystem. A caller probes the
//! host and hands in what it found, and every function states in its
//! contract what it makes of that.

pub mod drives;
pub mod favorites;
pub mod fingerprint;
pub mod listing;
pub mod path;
pub mod resolve;
pub mod service;
pub mod text;
