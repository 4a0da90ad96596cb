use embedstore::codec::{decode_rows, decode_vector, encode_vector};
use embedstore::errors::PersistenceError;

#[test]
fn encode_then_decode_gives_the_vector_back() {
    let v: Vec<i64> = vec![0, 1, -1, 32767, -32767, i64::MAX, i64::MIN];
    let bytes = encode_vector(&v);
    assert_eq!(bytes.len(), 8 * v.len());
    let back = decode_vector(&bytes).unwrap();
    assert_eq!(back, v);
}

#[test]
fn empty_vector_round_trips() {
    let v: Vec<i64> = Vec::new();
    let bytes = encode_vector(&v);
    assert!(bytes.is_empty());
    let back = decode_vector(&bytes).unwrap();
    assert!(back.is_empty());
}

#[test]
fn truncated_blob_is_rejected() {
    let v: Vec<i64> = vec![7, 8];
    let mut bytes = encode_vector(&v);
    bytes.pop();
    assert!(decode_vector(&bytes).is_none());
}

#[test]
fn rows_decode_to_entries() {
    let rows = vec![
        (0i64, 1024i64, encode_vector(&vec![3, 4])),
        (1024i64, 2048i64, encode_vector(&vec![-5, 6])),
    ];
    let entries = decode_rows(&rows).unwrap();
    assert_eq!(entries.len(), 2);
    assert_eq!(entries[0].start_byte, 0);
    assert_eq!(entries[0].end_byte, 1024);
    assert_eq!(entries[0].embedding, vec![3, 4]);
    assert_eq!(entries[1].start_byte, 1024);
    assert_eq!(entries[1].embedding, vec![-5, 6]);
}

#[test]
fn corrupt_row_fails_the_read() {
    let rows = vec![
        (0i64, 1024i64, encode_vector(&vec![3, 4])),
        (1024i64, 2048i64, vec![1, 2, 3]),
    ];
    match decode_rows(&rows) {
        Err(PersistenceError::CorruptRecord) => {},
        _ => panic!("expected CorruptRecord"),
    }
}
