use embedstore::errors::{ChunkFailure, IngestError, PersistenceError, ProviderError};
use embedstore::pipeline::{check_dimension, collect_ingest, plan_ingest, validate_vector};

#[test]
fn already_embedded_file_is_not_reembedded() {
    // A second ingestion of the same file sees its existing embeddings and
    // is rejected, whatever the file looks like now.
    let r = plan_ingest(true, Some(2048), 1024);
    assert!(matches!(r, Err(IngestError::AlreadyEmbedded)));
    let r = plan_ingest(true, None, 1024);
    assert!(matches!(r, Err(IngestError::AlreadyEmbedded)));
}

#[test]
fn unreadable_file_aborts_ingestion() {
    let r = plan_ingest(false, None, 1024);
    assert!(matches!(r, Err(IngestError::FileUnreadable)));
}

#[test]
fn plan_yields_the_chunk_cover() {
    let r = plan_ingest(false, Some(2048), 1024).unwrap();
    assert_eq!(r, vec![(0, 1024), (1024, 2048)]);
}

#[test]
fn all_chunks_ok_counts_them() {
    let r = collect_ingest(vec![(0, 1024, Ok(())), (1024, 2048, Ok(()))]);
    assert_eq!(r.unwrap(), 2);
}

#[test]
fn no_chunks_is_a_successful_empty_ingestion() {
    let r = collect_ingest(Vec::new());
    assert_eq!(r.unwrap(), 0);
}

#[test]
fn first_failing_chunk_decides_the_error() {
    let results = vec![
        (0, 1024, Ok(())),
        (1024, 2048, Err(ChunkFailure::Provider(ProviderError::Unavailable))),
        (2048, 2500, Err(ChunkFailure::Persistence(PersistenceError::WriteFailed))),
    ];
    match collect_ingest(results) {
        Err(IngestError::EmbedFailed { start_byte, end_byte, cause }) => {
            assert_eq!(start_byte, 1024);
            assert_eq!(end_byte, 2048);
            assert!(matches!(cause, ChunkFailure::Provider(ProviderError::Unavailable)));
        },
        _ => panic!("expected EmbedFailed"),
    }
}

#[test]
fn differing_vector_length_is_malformed() {
    let v = vec![1, 2, 3];
    assert!(check_dimension(&v, 3).is_ok());
    match check_dimension(&v, 4) {
        Err(ProviderError::MalformedResponse) => {},
        _ => panic!("expected MalformedResponse"),
    }
}

#[test]
fn vector_bounds_are_enforced() {
    assert!(validate_vector(&vec![0, 32767, -32767]));
    assert!(!validate_vector(&vec![32768]));
    assert!(!validate_vector(&vec![-32768]));
    let too_long = vec![0i64; 2049];
    assert!(!validate_vector(&too_long));
    let max_len = vec![1i64; 2048];
    assert!(validate_vector(&max_len));
}
