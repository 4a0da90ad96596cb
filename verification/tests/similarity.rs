use embedstore::index::{EmbeddingRecord, VectorIndex};

fn record(file_id: i64, start: i64, end: i64, vector: Vec<i64>) -> EmbeddingRecord {
    EmbeddingRecord::new(file_id, start, end, vector)
}

#[test]
fn empty_index_query_returns_empty() {
    let index = VectorIndex::build(Vec::new());
    assert_eq!(index.len(), 0);
    let r = index.query(&vec![1, 0], 5);
    assert!(r.is_empty());
    let r = index.query(&vec![1, 0], 0);
    assert!(r.is_empty());
}

#[test]
fn self_similarity_is_top() {
    let index = VectorIndex::build(vec![
        record(1, 0, 4, vec![1, 0]),
        record(1, 4, 8, vec![0, 1]),
    ]);
    let r = index.query(&vec![1, 0], 1);
    assert_eq!(r.len(), 1);
    assert_eq!(r[0].0.start_byte, 0);
    assert_eq!(r[0].0.vector, vec![1, 0]);
    assert!(r[0].1.is_max());
}

#[test]
fn orthogonal_vectors_score_zero() {
    let index = VectorIndex::build(vec![record(1, 0, 4, vec![0, 1])]);
    let r = index.query(&vec![1, 0], 1);
    assert_eq!(r.len(), 1);
    assert!(r[0].1.is_zero());
    assert!(!r[0].1.is_max());
}

#[test]
fn results_are_ordered_by_descending_similarity() {
    // Against the query [10, 0]: an exact match, a nearby vector, an
    // orthogonal one, and an opposite one.
    let index = VectorIndex::build(vec![
        record(1, 0, 1, vec![0, 10]),
        record(1, 1, 2, vec![-10, 0]),
        record(1, 2, 3, vec![10, 0]),
        record(1, 3, 4, vec![9, 1]),
    ]);
    let r = index.query(&vec![10, 0], 4);
    assert_eq!(r.len(), 4);
    assert_eq!(r[0].0.start_byte, 2);
    assert_eq!(r[1].0.start_byte, 3);
    assert_eq!(r[2].0.start_byte, 0);
    assert_eq!(r[3].0.start_byte, 1);
    assert!(r[0].1.is_max());
    assert!(r[2].1.is_zero());
}

#[test]
fn k_larger_than_collection_returns_all() {
    let index = VectorIndex::build(vec![
        record(1, 0, 4, vec![3, 4]),
        record(2, 0, 4, vec![4, 3]),
    ]);
    let r = index.query(&vec![1, 1], 10);
    assert_eq!(r.len(), 2);
}

#[test]
fn scaled_copies_tie_at_maximal_similarity() {
    // Cosine ignores magnitude: a scaled copy of the query also scores one.
    let index = VectorIndex::build(vec![record(1, 0, 4, vec![2, 4])]);
    let r = index.query(&vec![1, 2], 1);
    assert_eq!(r.len(), 1);
    assert!(r[0].1.is_max());
}
