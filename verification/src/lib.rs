//! Pruning of versioned tree storage, and write access to chain state.
//!
//! A versioned tree keeps the nodes of every version that was ever written.
//! Pruning collapses a substore to a single version: it builds a fresh tree in
//! another database from the keys and values of that version ([`prune`]),
//! carries every other column family over unchanged ([`copy`]), and checks
//! that it did ([`verify`]). What the current version reads is not affected.
//! The laws of the operations, over their inputs and results, are in [`laws`].

pub mod codec;
pub mod config;
pub mod copy;
pub mod error;
pub mod fingerprint;
pub mod laws;
pub mod prune;
pub mod rows;
pub mod text;
pub mod tree_store;
pub mod verify;
pub mod write;

pub use config::{PruneConfig, PruneMode};
pub use copy::copy_column_families;
pub use error::PruneError;
pub use fingerprint::fingerprint_column_family;
pub use prune::{prune_main_substore, prune_substore, PruneReport};
pub use tree_store::SubstoreConfig;
pub use verify::verify_column_families;
pub use write::StateWrite;
