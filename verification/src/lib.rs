//! Chunk-loading and caching core of a content-addressed store.
//!
//! Given a content fingerprint, the loader returns the corresponding
//! immutable byte payload, trying a prioritized sequence of local and
//! remote sources, verifying integrity, and caching results to avoid
//! redundant fetches and redundant in-memory copies of identical
//! content.

pub mod cache;
pub mod chunk;
pub mod fingerprint;
pub mod loader;
pub mod source;
