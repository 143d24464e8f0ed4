//! pathwrap: rewrites over-long or non-ASCII file-path arguments into short,
//! ASCII, symlink-backed equivalents before handing them to another program.
//!
//! This crate holds the decision and naming engine: the policy that decides
//! whether a path needs rewriting, the per-directory alias cache, and the
//! short-name generator. Everything that touches the operating system
//! (canonicalization, the temporary directory, symbolic links, spawning)
//! happens outside; the engine receives those answers as plain values and is
//! verified for every value of them.

pub mod digits;
pub mod translit;
pub mod registry;
pub mod pathmodel;
pub mod cache;
pub mod rewriter;
pub mod invoke;
