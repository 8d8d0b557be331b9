//! Directory-scoped environment activation, modelled as verified logic.
//!
//! The crate tracks, per directory, which named environment (a set of
//! variables and symlinks) is active, plans the filesystem and state-file
//! changes that switch environments, aggregates results across nested
//! directories, and renders the caller-facing output.  All decisions are
//! made over plain data; performing the planned filesystem changes is the
//! caller's job.

pub mod config;
pub mod emit;
pub mod engine;
pub mod errors;
pub mod hierarchy;
pub mod links;
pub mod paths;
pub mod scaffold;
pub mod smap;
pub mod state;
pub mod text;
