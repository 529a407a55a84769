//! Core engine of a duplicate-file finder.
//!
//! The library discovers candidate files through a depth- and
//! pattern-bounded walk, fingerprints file contents with a 128-bit
//! content hash, groups paths by fingerprint, and summarizes the
//! space reclaimable by deduplication.  All file-system and terminal
//! work is left to the surrounding program; the logic here is stated
//! in contracts and verified.

pub mod discovery;
pub mod hashing;
pub mod laws;
pub mod processor;
pub mod resultset;
pub mod pattern;
pub mod strutil;
pub mod timings;
pub mod view;
