use std::collections::HashMap;

use shuru::store::chunk::{ChunkStore, CreateOutcome, LocalChunkStore, ReadOutcome};

/// A local chunk store over a directory that is kept in memory.
struct DirStore {
    local: LocalChunkStore,
    files: HashMap<String, Vec<u8>>,
    writes: usize,
}

impl DirStore {
    fn open(cas_dir: &str) -> Self {
        DirStore {
            local: LocalChunkStore::open(cas_dir),
            files: HashMap::new(),
            writes: 0,
        }
    }
}

impl ChunkStore for DirStore {
    fn put(&mut self, data: &[u8]) -> Result<String, String> {
        let file = self.local.put(data);
        let outcome = if self.files.contains_key(&file.path) {
            CreateOutcome::AlreadyExists
        } else {
            self.files.insert(file.path.clone(), data.to_vec());
            self.writes += 1;
            CreateOutcome::Written
        };
        LocalChunkStore::put_result(file, outcome).map_err(|e| e.message)
    }

    fn get(&self, hash: &str) -> Result<Option<Vec<u8>>, String> {
        let outcome = match self.files.get(&self.local.chunk_path(hash)) {
            Some(data) => ReadOutcome::Data(data.clone()),
            None => ReadOutcome::NotFound,
        };
        LocalChunkStore::get_result(hash, outcome).map_err(|e| e.message)
    }
}

#[test]
fn test_chunk_store_put_get() {
    let mut store = DirStore::open("/tmp/cas");

    let data = b"hello world";
    let hash = store.put(data).unwrap();
    let retrieved = store.get(&hash).unwrap().unwrap();
    assert_eq!(retrieved, data);
}

#[test]
fn test_chunk_store_dedup() {
    let mut store = DirStore::open("/tmp/cas");

    let data = b"same content";
    let h1 = store.put(data).unwrap();
    let h2 = store.put(data).unwrap();
    assert_eq!(h1, h2);
    assert_eq!(store.files.len(), 1);
    assert_eq!(store.writes, 1);
}

#[test]
fn chunk_is_named_by_its_blake3_hash() {
    let store = LocalChunkStore::open("/data/cas");
    assert_eq!(store.chunks_dir, "/data/cas/chunks");
    let file = store.put(b"");
    assert_eq!(
        file.hash,
        "af1349b9f5f9a1a6a0404dea36dcc9499bcb25c9adc112b7cc9a93cae41f3262"
    );
    assert_eq!(file.hash, blake3::hash(b"").to_hex().to_string());
    assert_eq!(file.path, format!("/data/cas/chunks/{}", file.hash));
    let other = store.put(b"hello world");
    assert_eq!(other.hash, blake3::hash(b"hello world").to_hex().to_string());
    assert_ne!(other.hash, file.hash);
}

#[test]
fn missing_chunk_is_none() {
    let store = DirStore::open("cas/");
    assert_eq!(store.local.chunks_dir, "cas/chunks");
    assert_eq!(store.get("nothing").unwrap(), None);
}

#[test]
fn store_failures_are_reported() {
    let store = LocalChunkStore::open("/data/cas");
    let hash = store.put(b"x").hash;
    let outcome = CreateOutcome::CreateFailed("denied".to_string());
    let e = LocalChunkStore::put_result(store.put(b"x"), outcome).err().unwrap();
    assert_eq!(e.message, format!("failed to create chunk {}", hash));
    assert_eq!(e.cause, "denied");
    let outcome = CreateOutcome::WriteFailed("disk full".to_string());
    let e = LocalChunkStore::put_result(store.put(b"x"), outcome).err().unwrap();
    assert_eq!(e.message, format!("failed to write chunk {}", hash));
    assert_eq!(e.cause, "disk full");
    let outcome = ReadOutcome::Failed("bad sector".to_string());
    let e = LocalChunkStore::get_result(&hash, outcome).err().unwrap();
    assert_eq!(e.message, format!("failed to read chunk {}", hash));
    assert_eq!(e.cause, "bad sector");
}

#[test]
fn every_put_chunk_is_found_under_its_hash_alone() {
    let mut store = DirStore::open("cas");
    let chunks: [&[u8]; 3] = [b"one", b"two", b"one"];
    let hashes: Vec<String> = chunks.iter().map(|c| store.put(c).unwrap()).collect();
    for (chunk, hash) in chunks.iter().zip(&hashes) {
        assert_eq!(store.get(hash).unwrap().unwrap(), *chunk);
    }
    assert_eq!(store.files.len(), 2);
    let other = blake3::hash(b"three").to_hex().to_string();
    assert_eq!(store.get(&other).unwrap(), None);
}
