//! Embedding ingestion and similarity search.
//!
//! Files are split into fixed-size byte chunks; each chunk's text is mapped by
//! an external provider to an embedding vector, persisted, and served from a
//! per-project in-memory store that answers k-nearest-neighbor queries under
//! cosine similarity. Vector components are fixed-point integers, so the
//! similarity order is computed exactly.

pub mod auth;
pub mod chunker;
pub mod codec;
pub mod errors;
pub mod index;
pub mod models;
pub mod pipeline;
pub mod registry;
pub mod store;
pub mod text;
pub mod vector;
