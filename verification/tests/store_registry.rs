use embedstore::chunker::chunks;
use embedstore::errors::QueryError;
use embedstore::index::EmbeddingRecord;
use embedstore::registry::{ProjectData, ProjectManager};
use embedstore::store::ProjectStore;

fn record(file_id: i64, start: i64, end: i64, vector: Vec<i64>) -> EmbeddingRecord {
    EmbeddingRecord::new(file_id, start, end, vector)
}

#[test]
fn store_serves_its_records() {
    let store = ProjectStore::new(
        String::from("docs"),
        7,
        vec![1],
        vec![record(1, 0, 4, vec![5, 0]), record(1, 4, 8, vec![0, 5])],
    );
    assert_eq!(store.len(), 2);
    let r = store.knn(&vec![5, 0], 1);
    assert_eq!(r.len(), 1);
    assert_eq!(r[0].0.start_byte, 0);
}

#[test]
fn refresh_replaces_the_whole_collection() {
    let mut store = ProjectStore::new(
        String::from("docs"),
        7,
        vec![1],
        vec![record(1, 0, 4, vec![5, 0])],
    );
    let before = store.knn(&vec![5, 0], 5);
    assert_eq!(before.len(), 1);
    assert_eq!(before[0].0.file_id, 1);

    store.refresh(vec![record(2, 0, 4, vec![0, 5]), record(2, 4, 8, vec![5, 5])]);
    let after = store.knn(&vec![5, 0], 5);
    // Every result comes from the new collection, never the old one.
    assert_eq!(after.len(), 2);
    for (rec, _) in &after {
        assert_eq!(rec.file_id, 2);
    }
}

#[test]
fn unknown_project_is_reported() {
    let manager = ProjectManager::new();
    let r = manager.get_most_similiar_embedding(42, &vec![1, 0]);
    assert_eq!(r.unwrap_err(), QueryError::UnknownProject);
}

#[test]
fn project_without_embeddings_is_reported() {
    let mut manager = ProjectManager::new();
    manager.add_blank_project(3, String::from("empty"));
    let r = manager.get_most_similiar_embedding(3, &vec![1, 0]);
    assert_eq!(r.unwrap_err(), QueryError::NoEmbeddings);
}

#[test]
fn refresh_of_unknown_project_changes_nothing() {
    let mut manager = ProjectManager::new();
    let r = manager.refresh_project(9, Vec::new());
    assert_eq!(r.unwrap_err(), QueryError::UnknownProject);
}

#[test]
fn hydration_registers_every_project() {
    let mut manager = ProjectManager::new();
    manager.init_projects(vec![
        ProjectData {
            id: 1,
            name: String::from("alpha"),
            file_ids: vec![10],
            records: vec![record(10, 0, 4, vec![1, 0])],
        },
        ProjectData {
            id: 2,
            name: String::from("beta"),
            file_ids: Vec::new(),
            records: Vec::new(),
        },
    ]);
    assert!(manager.get_project(1).is_some());
    assert!(manager.get_project(2).is_some());
    assert!(manager.get_project(3).is_none());
    let r = manager.get_most_similiar_embedding(1, &vec![1, 0]);
    assert_eq!(r.unwrap().file_id, 10);
    let r = manager.get_most_similiar_embedding(2, &vec![1, 0]);
    assert_eq!(r.unwrap_err(), QueryError::NoEmbeddings);
}

#[test]
fn end_to_end_two_chunk_file() {
    // A 2048-byte file with chunk size 1024 yields exactly two ranges.
    let ranges = chunks(2048, 1024);
    assert_eq!(ranges, vec![(0, 1024), (1024, 2048)]);

    // One record per chunk; the first chunk's text embeds near [9, 1],
    // the second near [1, 9].
    let records: Vec<EmbeddingRecord> = vec![
        record(5, ranges[0].0 as i64, ranges[0].1 as i64, vec![9, 1]),
        record(5, ranges[1].0 as i64, ranges[1].1 as i64, vec![1, 9]),
    ];
    let mut manager = ProjectManager::new();
    manager.add_blank_project(77, String::from("upload"));
    manager.refresh_project(77, records).unwrap();

    // A query matching the first chunk's embedding returns the record
    // with start_byte 0.
    let best = manager.get_most_similiar_embedding(77, &vec![9, 1]).unwrap();
    assert_eq!(best.start_byte, 0);
    assert_eq!(best.end_byte, 1024);
    let best = manager.get_most_similiar_embedding(77, &vec![1, 9]).unwrap();
    assert_eq!(best.start_byte, 1024);
}
