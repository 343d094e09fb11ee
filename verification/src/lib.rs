//! Expansion of a single filesystem path into a flat collection of playable
//! track paths, for handing to a media-queue daemon.
//!
//! The crate models paths as plain strings (Unix style, `/`-separated). The
//! recursive resolver is a step machine ([`machine::Expander`]): the caller
//! performs the filesystem operations the machine requests and feeds the
//! outcomes back, so every decision the resolver makes is verified while the
//! I/O itself stays outside.

pub mod decode;
pub mod errors;
pub mod lines;
pub mod machine;
pub mod paths;
pub mod resolve;
pub mod shuffle;
pub mod tree;
