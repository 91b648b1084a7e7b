use fourc::fill::{
    create_plan, create_progress_due, fill_from_words, fill_random, prep_plan, CREATE_CHUNK_SIZE,
    PREP_CHUNK_SIZE,
};

#[test]
fn words_written_little_endian() {
    let mut buf = vec![0u8; 11];
    fill_from_words(&mut buf, &vec![0x0807060504030201, 0x1817161514131211]);
    assert_eq!(buf, vec![1, 2, 3, 4, 5, 6, 7, 8, 0x11, 0x12, 0x13]);
}

#[test]
fn random_fill_keeps_length() {
    let mut buf = vec![0u8; 1000];
    fill_random(&mut buf);
    assert_eq!(buf.len(), 1000);
    let mut empty: Vec<u8> = Vec::new();
    fill_random(&mut empty);
    assert!(empty.is_empty());
}

#[test]
fn file_creation_plan() {
    let p = create_plan(20);
    assert_eq!(p.size_bytes, 20 * 1024 * 1024 * 1024);
    assert_eq!(p.total_chunks, 20 * 1024);
    assert_eq!(p.remainder, 0);
    assert_eq!(p.total_chunks * CREATE_CHUNK_SIZE + p.remainder, p.size_bytes);
    assert!(create_progress_due(0));
    assert!(create_progress_due(2048));
    assert!(!create_progress_due(1025));
}

#[test]
fn prep_plan_covers_whole_chunks() {
    let size = 3 * PREP_CHUNK_SIZE + 12345;
    let p = prep_plan(size);
    assert_eq!(p.total_chunks(), 3);
    assert_eq!(p.chunk_offset(0), 0);
    assert_eq!(p.chunk_offset(2), 2 * PREP_CHUNK_SIZE);
    assert!(p.chunk_offset(2) + PREP_CHUNK_SIZE <= size);
    assert!(p.progress_due(64));
    assert!(!p.progress_due(65));
    assert_eq!(prep_plan(PREP_CHUNK_SIZE - 1).total_chunks(), 0);
}
