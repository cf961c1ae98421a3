//! Mirroring a registry package under a new name: which versions still need
//! publishing, and how a package manifest is rewritten for the mirror.

pub mod identity;
pub mod manifest;
pub mod mirror;
pub mod rewrite;
pub mod versions;
