use embedstore::chunker::chunks;

#[test]
fn chunk_cover_example() {
    let r = chunks(2500, 1024);
    assert_eq!(r, vec![(0, 1024), (1024, 2048), (2048, 2500)]);
}

#[test]
fn chunk_empty_file() {
    let r = chunks(0, 16);
    assert!(r.is_empty());
}

#[test]
fn chunk_exact_multiple() {
    let r = chunks(2048, 1024);
    assert_eq!(r, vec![(0, 1024), (1024, 2048)]);
}

#[test]
fn chunk_smaller_than_chunk_size() {
    let r = chunks(10, 1024);
    assert_eq!(r, vec![(0, 10)]);
}

#[test]
fn chunk_size_one() {
    let r = chunks(3, 1);
    assert_eq!(r, vec![(0, 1), (1, 2), (2, 3)]);
}

#[test]
fn chunk_cover_is_contiguous_and_bounded() {
    let file_size = 10_000u64;
    let chunk_size = 999u64;
    let r = chunks(file_size, chunk_size);
    assert_eq!(r[0].0, 0);
    assert_eq!(r[r.len() - 1].1, file_size);
    for i in 0..r.len() {
        assert!(r[i].0 < r[i].1);
        assert!(r[i].1 - r[i].0 <= chunk_size);
        if i + 1 < r.len() {
            assert_eq!(r[i].1, r[i + 1].0);
            assert_eq!(r[i].1 - r[i].0, chunk_size);
        }
    }
}
