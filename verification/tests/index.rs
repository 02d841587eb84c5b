use shuru::store::index::{ChunkIndex, IndexError, CHUNK_SIZE, ZERO_CHUNK_HASH};

#[test]
fn test_check_size_against_backend() {
    let index = ChunkIndex::new(4 * 1024 * 1024); // 4MB virtual disk

    // flat file == virtual disk: ok
    assert!(index
        .check_size_against_backend(4 * 1024 * 1024, "test")
        .is_ok());
    // flat file < virtual disk: ok (sparse expansion, the normal case)
    assert!(index
        .check_size_against_backend(1024 * 1024, "test")
        .is_ok());
    // flat file > virtual disk: corrupt, must fail
    match index.check_size_against_backend(8 * 1024 * 1024, "test") {
        Err(e) => assert!(e.message().contains("exceeds")),
        Ok(_) => panic!("expected size check to fail when flat file exceeds virtual disk"),
    }
}

#[test]
fn test_index_save_load() {
    let mut index = ChunkIndex::new(1024 * 1024);
    index.set_hash(0, "abc123".to_string());
    index.set_hash(5, "def456".to_string());
    let bytes = index.save();

    let loaded = ChunkIndex::load(&bytes).unwrap_or_else(|e| panic!("{}", e.message("test.idx")));
    assert_eq!(loaded.disk_size(), 1024 * 1024);
    assert_eq!(loaded.get_hash(0).unwrap(), "abc123");
    assert_eq!(loaded.get_hash(5).unwrap(), "def456");
    assert_eq!(loaded.get_hash(1).unwrap(), ZERO_CHUNK_HASH);
}

#[test]
fn test_load_rejects_mismatched_chunk_count() {
    // A disk of one chunk with a count of a hundred.
    let mut bytes = Vec::new();
    bytes.extend_from_slice(&(CHUNK_SIZE as u64).to_le_bytes());
    bytes.extend_from_slice(&100u64.to_le_bytes());
    bytes.extend_from_slice(&0u32.to_le_bytes());
    bytes.extend_from_slice(&0u32.to_le_bytes());

    match ChunkIndex::load(&bytes) {
        Err(e) => assert!(e.message("bad.idx").contains("chunk count")),
        Ok(_) => panic!("expected load to fail for mismatched chunk count"),
    }
}

#[test]
fn index_file_layout() {
    let mut index = ChunkIndex::new(1);
    index.set_parent_path(Some("p".to_string()));
    index.set_hash(0, "ab".to_string());
    let mut bytes = Vec::new();
    bytes.extend_from_slice(&1u64.to_le_bytes());
    bytes.extend_from_slice(&1u64.to_le_bytes());
    bytes.extend_from_slice(&1u32.to_le_bytes());
    bytes.extend_from_slice(b"p");
    bytes.extend_from_slice(&0u32.to_le_bytes());
    bytes.extend_from_slice(&2u32.to_le_bytes());
    bytes.extend_from_slice(b"ab");
    assert_eq!(index.save(), bytes);
    let loaded = ChunkIndex::load(&bytes).ok().unwrap();
    assert_eq!(loaded.parent_path().as_deref(), Some("p"));
    assert_eq!(loaded.fallback_path(), None);
    // What follows the last hash is not looked at.
    bytes.push(7);
    assert!(ChunkIndex::load(&bytes).is_ok());
}

#[test]
fn broken_index_files_are_refused() {
    let mut index = ChunkIndex::new(1);
    index.set_hash(0, "ab".to_string());
    let bytes = index.save();
    for n in 0..bytes.len() {
        assert_eq!(ChunkIndex::load(&bytes[..n]).err(), Some(IndexError::Truncated));
    }
    let mut bad = bytes.clone();
    let last = bad.len() - 1;
    bad[last] = 0xff;
    let e = ChunkIndex::load(&bad).err().unwrap();
    assert_eq!(e, IndexError::InvalidUtf8 { valid_up_to: 1, error_len: Some(1) });
    assert_eq!(e.message("x"), "invalid utf-8 sequence of 1 bytes from index 1");
    assert_eq!(e.message("x"), String::from_utf8(vec![b'a', 0xff]).unwrap_err().to_string());
    bad[last] = 0xc3;
    let e = ChunkIndex::load(&bad).err().unwrap();
    assert_eq!(e, IndexError::InvalidUtf8 { valid_up_to: 1, error_len: None });
    assert_eq!(e.message("x"), "incomplete utf-8 byte sequence from index 1");
    assert_eq!(e.message("x"), String::from_utf8(vec![b'a', 0xc3]).unwrap_err().to_string());
    assert_eq!(IndexError::Truncated.message("x"), "failed to fill whole buffer");
    assert_eq!(
        IndexError::ChunkCount { num_chunks: 100, disk_size: 65536, expected: 1 }.message("bad.idx"),
        "index bad.idx: chunk count 100 does not match disk_size 65536 (expected 1)"
    );
}

#[test]
fn index_covers_the_disk() {
    assert_eq!(ChunkIndex::new(0).num_chunks(), 0);
    assert_eq!(ChunkIndex::new(1).num_chunks(), 1);
    assert_eq!(ChunkIndex::new(65536).num_chunks(), 1);
    assert_eq!(ChunkIndex::new(65537).num_chunks(), 2);
    let mut index = ChunkIndex::new(1);
    index.set_hash(1, "x".to_string());
    assert_eq!(index.get_hash(1), None);
    assert_eq!(index.num_chunks(), 1);
}

#[test]
fn header_range_is_told() {
    let mut bytes = u64::MAX.to_le_bytes().to_vec();
    bytes.extend_from_slice(&1u64.to_le_bytes());
    assert!(!ChunkIndex::header_in_range(&bytes));
    assert!(ChunkIndex::header_in_range(&bytes[..8]));
    assert!(ChunkIndex::header_in_range(&ChunkIndex::new(5).save()));
}

#[test]
fn oversized_backend_message() {
    let e = ChunkIndex::new(10).check_size_against_backend(11, "flat").err().unwrap();
    assert_eq!(e.message(), "flat size (11) exceeds index disk_size (10)");
}

#[test]
fn empty_path_comes_back_as_none() {
    let mut index = ChunkIndex::new(CHUNK_SIZE as u64);
    index.set_hash(0, "ab".to_string());
    index.set_parent_path(Some(String::new()));
    index.set_fallback_path(Some("/flat".to_string()));
    let loaded = ChunkIndex::load(&index.save()).unwrap_or_else(|e| panic!("{}", e.message("i")));
    assert_eq!(loaded.parent_path(), None);
    assert_eq!(loaded.fallback_path(), Some("/flat".to_string()));
    assert_eq!(loaded.get_hash(0), Some("ab"));
    assert_eq!(loaded.disk_size(), CHUNK_SIZE as u64);
}
