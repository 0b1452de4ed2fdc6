//! A registry of layers: an append-only, ordered collection of records, each
//! owned by the account that minted it and carrying two vote counters.
//!
//! Every operation is a total, deterministic transition on the whole
//! registry: it either takes effect as a whole or is rejected with an error
//! and leaves the registry as it was. The contracts are stated over the
//! registry's view, a sequence of [`LayerView`] values.
//!
//! - [`layer`]: the record and its view.
//! - [`registry`]: the registry, minting, voting and reading.
//! - [`format`]: the byte encoding of a registry.
//! - [`codec`]: writing a registry to bytes and reading it back.
//! - [`laws`]: what holds of the operations and of the encoding.

pub mod codec;
pub mod format;
pub mod laws;
pub mod layer;
mod parsing;
pub mod registry;

pub use layer::{Layer, LayerView};
pub use registry::{VoteError, Welcome};
