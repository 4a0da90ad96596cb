//! The error taxonomy: structured values, never raw strings, so callers can
//! branch on kind and map each to a distinct, stable outcome.

use vstd::prelude::*;

verus! {

/// Why a call to the external embedding provider failed.
#[derive(Debug)]
pub enum ProviderError {
    /// Network or transport failure, including a timeout; retryable.
    Unavailable,
    /// The provider answered with an application error; carries the
    /// provider's message. Not retryable without changing the input.
    Rejected(String),
    /// The response could not be parsed into the expected shape, or the
    /// vector's length differs from the provider's fixed dimensionality.
    MalformedResponse,
}

/// A durable-storage operation failed.
#[derive(Debug)]
pub enum PersistenceError {
    /// A write could not be committed.
    WriteFailed,
    /// A read failed.
    ReadFailed,
    /// A stored value could not be decoded.
    CorruptRecord,
}

/// Why one chunk of an ingestion failed.
#[derive(Debug)]
pub enum ChunkFailure {
    /// The embedding provider failed for this chunk.
    Provider(ProviderError),
    /// The chunk's record could not be persisted.
    Persistence(PersistenceError),
}

/// Why a whole-file ingestion did not embed the file.
#[derive(Debug)]
pub enum IngestError {
    /// Embeddings already exist for this file; ingestion is per-file
    /// at-most-once and nothing was re-embedded.
    AlreadyEmbedded,
    /// The file could not be opened or sized; nothing was embedded.
    FileUnreadable,
    /// Some chunk's embed-or-persist step failed. Records already persisted
    /// for other chunks remain.
    EmbedFailed { start_byte: u64, end_byte: u64, cause: ChunkFailure },
}

/// Why a similarity query returned no record.
#[derive(Debug, PartialEq, Eq, Structural)]
pub enum QueryError {
    /// The project id is not registered.
    UnknownProject,
    /// The project has no embedding records.
    NoEmbeddings,
}

} // verus!
