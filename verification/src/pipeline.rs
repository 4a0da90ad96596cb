//! The ingestion pipeline's decisions.
//!
//! Ingestion turns one file into durably stored embedding records: check
//! that the file was not ingested before, compute the chunk cover, embed and
//! persist every chunk concurrently, and judge the aggregate outcome after
//! all chunks settle. The reading, the provider calls and the writes are the
//! caller's; every decision between them is made here, on plain values.

use vstd::prelude::*;

verus! {

use crate::chunker::chunks;
use crate::chunker::is_chunk_cover;
use crate::errors::ChunkFailure;
use crate::errors::IngestError;
use crate::errors::ProviderError;
use crate::vector::COMPONENT_BOUND;
use crate::vector::DIM_BOUND;
use crate::vector::valid_vector;

/// Step one and two of ingestion: reject a file that already has embeddings
/// (ingestion is per-file at-most-once), reject a file that cannot be opened
/// or sized, and otherwise return the chunk cover to embed. The
/// already-embedded check comes first: it wins even over an unreadable file.
pub fn plan_ingest(already_embedded: bool, file_size: Option<u64>, chunk_size: u64) -> (r: Result<
    Vec<(u64, u64)>,
    IngestError,
>)
    requires
        chunk_size > 0,
    ensures
        already_embedded ==> r == Err::<Vec<(u64, u64)>, IngestError>(
            IngestError::AlreadyEmbedded,
        ),
        !already_embedded && file_size is None ==> r == Err::<Vec<(u64, u64)>, IngestError>(
            IngestError::FileUnreadable,
        ),
        !already_embedded && file_size is Some ==> (r matches Ok(c) && is_chunk_cover(
            c@,
            file_size->Some_0 as int,
            chunk_size as int,
        )),
{
    if already_embedded {
        return Err(IngestError::AlreadyEmbedded);
    }
    match file_size {
        None => Err(IngestError::FileUnreadable),
        Some(fs) => Ok(chunks(fs, chunk_size)),
    }
}

/// The join-all barrier's judgment: given every chunk's settled outcome, in
/// chunk order, the whole ingestion succeeds with the number of chunks
/// embedded if and only if every chunk succeeded; otherwise it fails with
/// the first failing chunk's range and cause. Later successes are kept by
/// the caller either way: there is no cross-chunk rollback.
#[verifier::loop_isolation(false)]
pub fn collect_ingest(results: Vec<(u64, u64, Result<(), ChunkFailure>)>) -> (r: Result<
    usize,
    IngestError,
>)
    ensures
        r is Ok <==> (forall|i: int|
            0 <= i < results@.len() ==> (#[trigger] results@[i]).2 is Ok),
        r matches Ok(n) ==> n == results@.len(),
        r matches Err(e) ==> exists|i: int|
            {
                &&& 0 <= i < results@.len()
                &&& (#[trigger] results@[i]).2 is Err
                &&& forall|j: int| 0 <= j < i ==> (#[trigger] results@[j]).2 is Ok
                &&& e == (IngestError::EmbedFailed {
                    start_byte: results@[i].0,
                    end_byte: results@[i].1,
                    cause: results@[i].2->Err_0,
                })
            },
{
    let ghost orig = results@;
    let mut rest = results;
    let total = rest.len();
    let mut done: usize = 0;
    while rest.len() > 0
        invariant
            total == orig.len(),
            done + rest@.len() == orig.len(),
            rest@ == orig.subrange(done as int, orig.len() as int),
            forall|j: int| 0 <= j < done ==> (#[trigger] orig[j]).2 is Ok,
        decreases rest@.len(),
    {
        let item = rest.remove(0);
        proof {
            assert(item == orig[done as int]);
            assert(rest@ =~= orig.subrange(done + 1, orig.len() as int));
        }
        match item.2 {
            Ok(_) => {
                done = done + 1;
            },
            Err(cause) => {
                proof {
                    assert((#[trigger] orig[done as int]).2 is Err);
                }
                return Err(
                    IngestError::EmbedFailed { start_byte: item.0, end_byte: item.1, cause },
                );
            },
        }
    }
    Ok(done)
}

/// The dimensionality check of the provider contract: the vector length
/// must equal the fixed dimensionality; a differing length is treated as a
/// malformed response.
pub fn check_dimension(v: &Vec<i64>, expected: usize) -> (r: Result<(), ProviderError>)
    ensures
        r is Ok <==> v@.len() == expected,
        r is Err ==> r == Err::<(), ProviderError>(ProviderError::MalformedResponse),
{
    if v.len() == expected {
        Ok(())
    } else {
        Err(ProviderError::MalformedResponse)
    }
}

/// Whether a vector is within the library's bounds: at most [`DIM_BOUND`]
/// components, each within [`COMPONENT_BOUND`].
pub fn validate_vector(v: &Vec<i64>) -> (r: bool)
    ensures
        r == valid_vector(v@),
{
    if v.len() > DIM_BOUND {
        return false;
    }
    let mut i: usize = 0;
    while i < v.len()
        invariant
            i <= v@.len(),
            v@.len() <= DIM_BOUND,
            forall|j: int| 0 <= j < i ==> -COMPONENT_BOUND <= #[trigger] v@[j] <= COMPONENT_BOUND,
        decreases v@.len() - i,
    {
        if v[i] > COMPONENT_BOUND || v[i] < -COMPONENT_BOUND {
            return false;
        }
        i = i + 1;
    }
    true
}

} // verus!
