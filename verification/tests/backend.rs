use std::collections::HashMap;
use std::sync::{Arc, Mutex};

use shuru::store::backend::{
    chunk_or_zeros, note_put, BackendError, CasBackend, FlatFileBackend, FlatReply,
};
use shuru::store::chunk::{ChunkStore, LocalChunkStore};
use shuru::store::index::{ChunkIndex, CHUNK_SIZE, ZERO_CHUNK_HASH};

/// A chunk store in memory, which can be told to fail.
struct MemStore {
    chunks: HashMap<String, Vec<u8>>,
    fail_put: bool,
    fail_get: bool,
}

impl MemStore {
    fn new() -> Self {
        MemStore {
            chunks: HashMap::new(),
            fail_put: false,
            fail_get: false,
        }
    }

    fn with(data: &[&[u8]]) -> Self {
        let mut store = MemStore::new();
        for d in data {
            store.put(d).unwrap();
        }
        store
    }
}

impl ChunkStore for MemStore {
    fn put(&mut self, data: &[u8]) -> Result<String, String> {
        if self.fail_put {
            return Err("put failed".to_string());
        }
        let hash = LocalChunkStore::open("cas").put(data).hash;
        if !self.chunks.contains_key(&hash) {
            self.chunks.insert(hash.clone(), data.to_vec());
        }
        Ok(hash)
    }

    fn get(&self, hash: &str) -> Result<Option<Vec<u8>>, String> {
        if self.fail_get {
            return Err("get failed".to_string());
        }
        Ok(self.chunks.get(hash).cloned())
    }
}

fn hash_of(data: &[u8]) -> String {
    blake3::hash(data).to_hex().to_string()
}

/// Answers the reads that these bytes need from a flat file.
fn window(
    backend: &CasBackend<MemStore>,
    flat: &[u8],
    offset: u64,
    len: usize,
) -> Vec<FlatReply> {
    let mut replies = Vec::new();
    for read in backend.flat_reads(offset, len) {
        let start = read.offset as usize;
        replies.push(FlatReply {
            chunk_idx: read.chunk_idx,
            data: Ok(flat[start..start + read.len].to_vec()),
        });
    }
    replies
}

fn read(backend: &mut CasBackend<MemStore>, flat: &[u8], offset: u64, len: usize) -> Vec<u8> {
    let replies = window(backend, flat, offset, len);
    let mut buf = vec![0xEEu8; len];
    let n = match backend.read(offset, &mut buf, &replies) {
        Ok(n) => n,
        Err(e) => panic!("{}", e.message()),
    };
    assert_eq!(n, len);
    buf
}

fn write(backend: &mut CasBackend<MemStore>, flat: &[u8], offset: u64, data: &[u8]) {
    let replies = window(backend, flat, offset, data.len());
    match backend.write(offset, data, &replies) {
        Ok(n) => assert_eq!(n, data.len()),
        Err(e) => panic!("{}", e.message()),
    }
}

fn flush(backend: &mut CasBackend<MemStore>) {
    if let Err(e) = backend.flush() {
        panic!("{}", e.message());
    }
}

#[test]
fn test_cas_backend_read_write() {
    let index = ChunkIndex::new(256 * 1024); // 4 chunks
    let mut backend = CasBackend::new(MemStore::new(), index, Vec::new());

    let data = b"hello from CAS";
    write(&mut backend, &[], 100, data);

    let buf = read(&mut backend, &[], 100, data.len());
    assert_eq!(&buf, data);

    // From the chunk store, no longer from memory.
    flush(&mut backend);
    let buf2 = read(&mut backend, &[], 100, data.len());
    assert_eq!(&buf2, data);
}

#[test]
fn test_cas_backend_cross_chunk_write() {
    let index = ChunkIndex::new(256 * 1024);
    let mut backend = CasBackend::new(MemStore::new(), index, Vec::new());

    // Chunk 0 ends at 65536.
    let offset = CHUNK_SIZE as u64 - 4;
    let data = b"crosschunk";
    write(&mut backend, &[], offset, data);

    let buf = read(&mut backend, &[], offset, data.len());
    assert_eq!(&buf, data);
}

#[test]
fn write_leaves_other_bytes_alone() {
    let mut backend = CasBackend::new(MemStore::new(), ChunkIndex::new(256 * 1024), Vec::new());
    write(&mut backend, &[], 10, b"aaaaaaaaaa");
    write(&mut backend, &[], 13, b"bbb");
    assert_eq!(read(&mut backend, &[], 8, 14), b"\0\0aaabbbaaaa\0\0");
    assert_eq!(read(&mut backend, &[], 0, 0), b"");
}

#[test]
fn fresh_disk_reads_as_zeros() {
    let mut backend = CasBackend::new(MemStore::new(), ChunkIndex::new(100), Vec::new());
    assert_eq!(read(&mut backend, &[], 0, 200_000), vec![0u8; 200_000]);
    assert_eq!(backend.size(), 100);
}

#[test]
fn flat_file_shows_through_and_is_ingested() {
    let mut flat = vec![0u8; CHUNK_SIZE * 2 + 10];
    flat[5] = 7;
    flat[CHUNK_SIZE * 2 + 3] = 9;
    let size = flat.len() as u64;
    let fallback = FlatFileBackend { path: "/r.ext4".to_string(), size };
    let mut backend =
        CasBackend::with_fallback(MemStore::new(), ChunkIndex::new(size), fallback, Vec::new());

    let reads = backend.flat_reads(0, flat.len());
    assert_eq!(reads.len(), 3);
    assert_eq!((reads[0].chunk_idx, reads[0].offset, reads[0].len), (0, 0, CHUNK_SIZE));
    assert_eq!(
        (reads[2].chunk_idx, reads[2].offset, reads[2].len),
        (2, 2 * CHUNK_SIZE as u64, 10)
    );

    assert_eq!(read(&mut backend, &flat, 0, flat.len()), flat);
    // The chunks that hold something are in the store now; the one of zeros is
    // still asked for.
    let reads = backend.flat_reads(0, flat.len());
    assert_eq!(reads.len(), 1);
    assert_eq!(reads[0].chunk_idx, 1);
    assert_eq!(read(&mut backend, &flat, 0, flat.len()), flat);
    // Past the flat file there are zeros.
    assert_eq!(read(&mut backend, &flat, size, 4), vec![0u8; 4]);
}

#[test]
fn short_last_chunk_grows_with_a_write() {
    let flat = vec![3u8; 10];
    let fallback = FlatFileBackend { path: "/r.ext4".to_string(), size: 10 };
    let mut backend =
        CasBackend::with_fallback(MemStore::new(), ChunkIndex::new(100), fallback, Vec::new());
    write(&mut backend, &flat, 12, b"xy");
    assert_eq!(read(&mut backend, &flat, 8, 8), b"\x03\x03\0\0xy\0\0");
    flush(&mut backend);
    assert_eq!(read(&mut backend, &flat, 8, 8), b"\x03\x03\0\0xy\0\0");
}

#[test]
fn zero_entries_resolve_through_parents() {
    let near: Vec<u8> = vec![1; 8];
    let far: Vec<u8> = vec![2; 8];
    let own: Vec<u8> = vec![3; 8];
    let mut index = ChunkIndex::new(4 * CHUNK_SIZE as u64);
    index.set_hash(0, hash_of(&own));
    let mut parent = ChunkIndex::new(4 * CHUNK_SIZE as u64);
    parent.set_hash(0, hash_of(&near));
    parent.set_hash(1, hash_of(&near));
    let mut grandparent = ChunkIndex::new(4 * CHUNK_SIZE as u64);
    grandparent.set_hash(1, hash_of(&far));
    grandparent.set_hash(2, hash_of(&far));
    let store = MemStore::with(&[&near, &far, &own]);
    let mut backend = CasBackend::new(store, index, vec![parent, grandparent]);
    assert_eq!(read(&mut backend, &[], 0, 2), [3, 3]);
    assert_eq!(read(&mut backend, &[], CHUNK_SIZE as u64, 2), [1, 1]);
    assert_eq!(read(&mut backend, &[], 2 * CHUNK_SIZE as u64, 2), [2, 2]);
    assert_eq!(read(&mut backend, &[], 3 * CHUNK_SIZE as u64, 2), [0, 0]);
}

#[test]
fn chunk_missing_from_the_store_reads_as_zeros() {
    let mut index = ChunkIndex::new(CHUNK_SIZE as u64);
    index.set_hash(0, "0123".to_string());
    let mut backend = CasBackend::new(MemStore::new(), index, Vec::new());
    assert_eq!(read(&mut backend, &[], 0, 3), [0, 0, 0]);
    assert_eq!(chunk_or_zeros(Ok(None)).ok().unwrap(), vec![0u8; CHUNK_SIZE]);
    assert_eq!(chunk_or_zeros(Ok(Some(vec![1]))).ok().unwrap(), vec![1]);
    assert_eq!(chunk_or_zeros(Err("no".to_string())).err().unwrap().message(), "no");
}

#[test]
fn store_errors_come_through() {
    let mut index = ChunkIndex::new(CHUNK_SIZE as u64);
    index.set_hash(0, "0123".to_string());
    let mut store = MemStore::new();
    store.fail_get = true;
    let mut backend = CasBackend::new(store, index, Vec::new());
    let mut buf = [0u8; 1];
    match backend.read(0, &mut buf, &Vec::new()) {
        Err(BackendError::Store(e)) => assert_eq!(e, "get failed"),
        _ => panic!("expected the store's error"),
    }
}

#[test]
fn flat_file_errors_come_through() {
    let fallback = FlatFileBackend { path: "/r.ext4".to_string(), size: 4 };
    let mut backend =
        CasBackend::with_fallback(MemStore::new(), ChunkIndex::new(4), fallback, Vec::new());
    let replies = vec![FlatReply { chunk_idx: 0, data: Err("bad disk".to_string()) }];
    let mut buf = [0u8; 1];
    match backend.read(0, &mut buf, &replies) {
        Err(BackendError::Flat(e)) => assert_eq!(e, "bad disk"),
        _ => panic!("expected the flat file's error"),
    }
    match backend.write(0, b"x", &replies) {
        Err(e) => assert_eq!(e.message(), "bad disk"),
        Ok(_) => panic!("expected the flat file's error"),
    }
}

#[test]
fn failed_flush_drops_unsaved_chunks() {
    let mut store = MemStore::new();
    store.fail_put = true;
    let mut backend = CasBackend::new(store, ChunkIndex::new(CHUNK_SIZE as u64), Vec::new());
    write(&mut backend, &[], 0, b"abc");
    match backend.flush() {
        Err(e) => assert_eq!(e.message(), "put failed"),
        Ok(_) => panic!("expected the store's error"),
    }
    assert_eq!(read(&mut backend, &[], 0, 3), [0, 0, 0]);
    assert!(backend.flush().is_ok());
}

#[test]
fn set_disk_size_only_grows_and_keeps_the_disk() {
    let mut backend = CasBackend::new(MemStore::new(), ChunkIndex::new(10), Vec::new());
    write(&mut backend, &[], 0, b"keep");
    backend.set_disk_size(5);
    assert_eq!(backend.size(), 10);
    backend.set_disk_size(3 * CHUNK_SIZE as u64);
    assert_eq!(backend.size(), 3 * CHUNK_SIZE as u64);
    assert_eq!(read(&mut backend, &[], 0, 4), b"keep");
    write(&mut backend, &[], 2 * CHUNK_SIZE as u64, b"new");
    flush(&mut backend);
    assert_eq!(read(&mut backend, &[], 2 * CHUNK_SIZE as u64, 3), b"new");
}

#[test]
fn flush_has_no_place_for_chunks_past_the_end() {
    let mut backend = CasBackend::new(MemStore::new(), ChunkIndex::new(10), Vec::new());
    write(&mut backend, &[], CHUNK_SIZE as u64, b"past");
    assert_eq!(read(&mut backend, &[], CHUNK_SIZE as u64, 4), b"past");
    flush(&mut backend);
    assert_eq!(read(&mut backend, &[], CHUNK_SIZE as u64, 4), [0, 0, 0, 0]);
}

#[test]
fn checkpoint_restores_the_disk() {
    let mut flat = vec![0u8; 2 * CHUNK_SIZE];
    flat[0] = 1;
    flat[CHUNK_SIZE] = 2;
    let size = flat.len() as u64;
    let fallback = FlatFileBackend { path: "/r.ext4".to_string(), size };
    let mut source = ChunkIndex::new(size);
    let saved_chunk = vec![5u8; CHUNK_SIZE];
    source.set_hash(1, hash_of(&saved_chunk));
    let source_bytes = source.save();
    let store = MemStore::with(&[&saved_chunk]);
    let mut backend = CasBackend::with_fallback(store, source, fallback, Vec::new());
    backend.set_source_index_path(Some("/c/source.idx".to_string()));

    write(&mut backend, &flat, 3, b"new");
    let bytes = match backend.save_index() {
        Ok(bytes) => bytes,
        Err(e) => panic!("{}", e.message()),
    };
    let delta = ChunkIndex::load(&bytes).ok().unwrap();
    assert_eq!(delta.parent_path().as_deref(), Some("/c/source.idx"));
    assert_eq!(delta.fallback_path().as_deref(), Some("/r.ext4"));
    let mut first = flat[..CHUNK_SIZE].to_vec();
    first[3..6].copy_from_slice(b"new");
    assert_eq!(delta.get_hash(0), Some(hash_of(&first).as_str()));
    assert_eq!(delta.get_hash(1), Some(hash_of(&saved_chunk).as_str()));

    // Open again through the delta and its parent, over the same chunks.
    let parent = ChunkIndex::load(&source_bytes).ok().unwrap();
    let store = MemStore::with(&[&saved_chunk, &first]);
    let fallback = FlatFileBackend { path: "/r.ext4".to_string(), size };
    let mut reopened = CasBackend::with_fallback(store, delta, fallback, vec![parent]);
    assert_eq!(
        read(&mut reopened, &flat, 0, flat.len()),
        read(&mut backend, &flat, 0, flat.len())
    );
}

#[test]
fn failed_save_reports_the_store() {
    let mut store = MemStore::new();
    store.fail_put = true;
    let mut backend = CasBackend::new(store, ChunkIndex::new(10), Vec::new());
    write(&mut backend, &[], 0, b"a");
    match backend.save_index() {
        Err(e) => assert_eq!(e.message(), "put failed"),
        Ok(_) => panic!("expected the store's error"),
    }
}

#[test]
fn saved_index_without_source_has_no_parent() {
    let mut backend = CasBackend::new(MemStore::new(), ChunkIndex::new(10), Vec::new());
    let bytes = backend.save_index().ok().unwrap();
    let index = ChunkIndex::load(&bytes).ok().unwrap();
    assert_eq!(index.parent_path(), None);
    assert_eq!(index.fallback_path(), None);
    assert_eq!(index.get_hash(0), Some(ZERO_CHUNK_HASH));
}

#[test]
fn put_outcome_is_noted_or_reported() {
    let mut index = ChunkIndex::new(10);
    assert!(note_put(&mut index, 0, Ok("ab".to_string())).is_ok());
    assert_eq!(index.get_hash(0), Some("ab"));
    match note_put(&mut index, 0, Err("disk full".to_string())) {
        Err(BackendError::Store(e)) => assert_eq!(e, "disk full"),
        _ => panic!("expected the store's error"),
    }
    assert_eq!(index.get_hash(0), Some("ab"));
}

#[test]
fn failed_write_keeps_the_part_before_the_failing_chunk() {
    let size = 3 * CHUNK_SIZE as u64;
    let flat = vec![4u8; 3 * CHUNK_SIZE];
    let fallback = FlatFileBackend { path: "/r.ext4".to_string(), size };
    let mut backend =
        CasBackend::with_fallback(MemStore::new(), ChunkIndex::new(size), fallback, Vec::new());
    let offset = CHUNK_SIZE as u64 - 2;
    let mut replies = window(&backend, &flat, offset, CHUNK_SIZE + 4);
    assert_eq!(replies.len(), 3);
    replies[2].data = Err("bad sector".to_string());
    let data = vec![9u8; CHUNK_SIZE + 4];
    match backend.write(offset, &data, &replies) {
        Err(BackendError::Flat(e)) => assert_eq!(e, "bad sector"),
        _ => panic!("expected the flat file's error"),
    }
    assert_eq!(read(&mut backend, &flat, offset - 1, 3), [4, 9, 9]);
    let last = 2 * CHUNK_SIZE as u64;
    assert_eq!(read(&mut backend, &flat, last - 1, 3), [9, 4, 4]);
    // A read stops at the same chunk and leaves the rest of its buffer alone.
    let mut buf = vec![1u8; CHUNK_SIZE + 4];
    let fallback = FlatFileBackend { path: "/r.ext4".to_string(), size };
    let mut backend =
        CasBackend::with_fallback(MemStore::new(), ChunkIndex::new(size), fallback, Vec::new());
    assert!(backend.read(offset, &mut buf, &replies).is_err());
    assert_eq!(buf[..CHUNK_SIZE + 2], vec![4u8; CHUNK_SIZE + 2]);
    assert_eq!(buf[CHUNK_SIZE + 2..], [1, 1]);
}

#[test]
fn reads_may_be_split_and_repeated() {
    let mut flat = vec![0u8; 2 * CHUNK_SIZE + 7];
    for (i, b) in flat.iter_mut().enumerate() {
        *b = (i % 251) as u8;
    }
    let size = flat.len() as u64;
    let fallback = FlatFileBackend { path: "/r.ext4".to_string(), size };
    let mut backend =
        CasBackend::with_fallback(MemStore::new(), ChunkIndex::new(size), fallback, Vec::new());
    let whole = read(&mut backend, &flat, 3, flat.len() - 3);
    assert_eq!(whole, flat[3..]);
    let mut parts = read(&mut backend, &flat, 3, CHUNK_SIZE + 11);
    parts.extend(read(&mut backend, &flat, CHUNK_SIZE as u64 + 14, CHUNK_SIZE - 7));
    assert_eq!(parts, whole);
}

#[test]
fn lost_chunk_leaves_the_other_chunks_alone() {
    // Chunk 1 is lost from the store and has the content of chunk 0 of the flat
    // file, which is not ingested yet.
    let flat = vec![8u8; CHUNK_SIZE];
    let size = 3 * CHUNK_SIZE as u64;
    let other = vec![6u8; CHUNK_SIZE];
    let mut index = ChunkIndex::new(size);
    index.set_hash(1, hash_of(&flat));
    index.set_hash(2, hash_of(&other));
    let fallback = FlatFileBackend { path: "/r.ext4".to_string(), size: CHUNK_SIZE as u64 };
    let store = MemStore::with(&[&other]);
    let mut backend = CasBackend::with_fallback(store, index, fallback, Vec::new());
    assert_eq!(read(&mut backend, &flat, CHUNK_SIZE as u64, 2), [0, 0]);
    assert_eq!(read(&mut backend, &flat, 2 * CHUNK_SIZE as u64, 2), [6, 6]);
    assert_eq!(read(&mut backend, &flat, 0, 2), [8, 8]);
    write(&mut backend, &flat, 2 * CHUNK_SIZE as u64 + 1, b"x");
    assert_eq!(read(&mut backend, &flat, 2 * CHUNK_SIZE as u64, 3), [6, b'x', 6]);
}

#[test]
fn second_flush_has_nothing_to_do() {
    let mut backend = CasBackend::new(MemStore::new(), ChunkIndex::new(10), Vec::new());
    write(&mut backend, &[], 0, b"abc");
    flush(&mut backend);
    let first = backend.save_index().ok().unwrap();
    flush(&mut backend);
    assert_eq!(backend.save_index().ok().unwrap(), first);
}

/// A chunk store that keeps a record of the chunks it was handed. The one with the
/// number `failing` cannot be stored.
struct LogStore {
    inner: MemStore,
    log: Arc<Mutex<Vec<Vec<u8>>>>,
    failing: usize,
}

impl ChunkStore for LogStore {
    fn put(&mut self, data: &[u8]) -> Result<String, String> {
        let mut log = self.log.lock().unwrap();
        log.push(data.to_vec());
        if log.len() == self.failing {
            return Err("out of room".to_string());
        }
        self.inner.put(data)
    }

    fn get(&self, hash: &str) -> Result<Option<Vec<u8>>, String> {
        self.inner.get(hash)
    }
}

fn logged_disk(
    size: u64,
    flat_len: u64,
    failing: usize,
) -> (CasBackend<LogStore>, Arc<Mutex<Vec<Vec<u8>>>>) {
    let log = Arc::new(Mutex::new(Vec::new()));
    let store = LogStore { inner: MemStore::new(), log: log.clone(), failing };
    let flat = FlatFileBackend { path: "/flat".to_string(), size: flat_len };
    (CasBackend::with_fallback(store, ChunkIndex::new(size), flat, Vec::new()), log)
}

fn replies(disk: &CasBackend<LogStore>, flat: &[u8], offset: u64, len: usize) -> Vec<FlatReply> {
    disk.flat_reads(offset, len)
        .into_iter()
        .map(|r| FlatReply {
            chunk_idx: r.chunk_idx,
            data: Ok(flat[r.offset as usize..r.offset as usize + r.len].to_vec()),
        })
        .collect()
}

#[test]
fn partial_last_chunk_is_put_once_at_its_own_length() {
    let flat = vec![1u8; 65537];
    let (mut disk, log) = logged_disk(65537, 65537, 0);
    let window = replies(&disk, &flat, 65536, 1);
    let mut buf = [9u8; 1];
    assert_eq!(disk.read(65536, &mut buf, &window).ok(), Some(1));
    assert_eq!(buf, [1]);
    assert_eq!(*log.lock().unwrap(), vec![vec![1u8]]);
    // The second read finds it in the store.
    assert_eq!(replies(&disk, &flat, 65536, 1).len(), 0);
    assert_eq!(disk.read(65536, &mut buf, &Vec::new()).ok(), Some(1));
    assert_eq!(buf, [1]);
    assert_eq!(log.lock().unwrap().len(), 1);
}

#[test]
fn each_piece_of_the_flat_file_is_put_once_and_in_order() {
    let mut flat = vec![1u8; CHUNK_SIZE];
    flat.extend_from_slice(&vec![0u8; CHUNK_SIZE]);
    flat.extend_from_slice(&vec![3u8; CHUNK_SIZE]);
    let len = flat.len();
    let (mut disk, log) = logged_disk(len as u64, len as u64, 0);
    for _ in 0..2 {
        let window = replies(&disk, &flat, 0, len);
        let mut buf = vec![9u8; len];
        assert_eq!(disk.read(0, &mut buf, &window).ok(), Some(len));
        assert_eq!(buf, flat);
        // The chunk of zeros is not put, and none is put again.
        assert_eq!(*log.lock().unwrap(), vec![vec![1u8; CHUNK_SIZE], vec![3u8; CHUNK_SIZE]]);
    }
    let (mut disk, log) = logged_disk(len as u64, len as u64, 0);
    let window = replies(&disk, &flat, CHUNK_SIZE as u64 - 1, CHUNK_SIZE + 2);
    let data = vec![7u8; CHUNK_SIZE + 2];
    assert_eq!(disk.write(CHUNK_SIZE as u64 - 1, &data, &window).ok(), Some(CHUNK_SIZE + 2));
    assert_eq!(*log.lock().unwrap(), vec![vec![1u8; CHUNK_SIZE], vec![3u8; CHUNK_SIZE]]);
}

#[test]
fn failed_put_ends_the_operation() {
    let flat = vec![1u8; 3 * CHUNK_SIZE];
    let (mut disk, log) = logged_disk(flat.len() as u64, flat.len() as u64, 2);
    let window = replies(&disk, &flat, 0, flat.len());
    let mut buf = vec![9u8; flat.len()];
    match disk.read(0, &mut buf, &window) {
        Err(BackendError::Store(e)) => assert_eq!(e, "out of room"),
        _ => panic!(),
    }
    assert_eq!(log.lock().unwrap().len(), 2);
    assert_eq!(buf[..CHUNK_SIZE], flat[..CHUNK_SIZE]);
    assert_eq!(buf[CHUNK_SIZE..], vec![9u8; 2 * CHUNK_SIZE][..]);
}
