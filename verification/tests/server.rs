use std::collections::HashMap;
use std::sync::{Arc, Mutex};

use shuru::store::backend::{CasBackend, FlatFileBackend, FlatReply};
use shuru::store::chunk::{ChunkStore, LocalChunkStore};
use shuru::store::index::{ChunkIndex, CHUNK_SIZE, ZERO_CHUNK_HASH};
use shuru::store::server::{
    start_cas_nbd_server, AcceptAction, AcceptLoop, CheckpointError, CorruptIndex, DiskSource,
    NbdHandle, ParentChain, IDLE_FD,
};

struct MemStore {
    chunks: HashMap<String, Vec<u8>>,
    full: bool,
}

impl MemStore {
    fn new() -> Self {
        MemStore { chunks: HashMap::new(), full: false }
    }
}

impl ChunkStore for MemStore {
    fn put(&mut self, data: &[u8]) -> Result<String, String> {
        if self.full {
            return Err("store is full".to_string());
        }
        let hash = LocalChunkStore::open("cas").put(data).hash;
        self.chunks.insert(hash.clone(), data.to_vec());
        Ok(hash)
    }

    fn get(&self, hash: &str) -> Result<Option<Vec<u8>>, String> {
        Ok(self.chunks.get(hash).cloned())
    }
}

fn flat(size: u64) -> FlatFileBackend {
    FlatFileBackend { path: "/rootfs.ext4".to_string(), size }
}

#[test]
fn fresh_disk_has_the_size_of_its_file_or_more() {
    let source = DiskSource::Fresh { rootfs: flat(100) };
    let disk = start_cas_nbd_server(MemStore::new(), source, Vec::new(), 0).ok().unwrap();
    assert_eq!(disk.size(), 100);
    assert_eq!(disk.source_index_path(), None);
    assert_eq!(disk.flat_reads(0, 10).len(), 1);
    let source = DiskSource::Fresh { rootfs: flat(100) };
    let disk = start_cas_nbd_server(MemStore::new(), source, Vec::new(), 1 << 20).ok().unwrap();
    assert_eq!(disk.size(), 1 << 20);
    let source = DiskSource::Fresh { rootfs: flat(100) };
    let disk = start_cas_nbd_server(MemStore::new(), source, Vec::new(), 50).ok().unwrap();
    assert_eq!(disk.size(), 100);
}

#[test]
fn existing_index_is_the_parent_of_the_next() {
    let mut index = ChunkIndex::new(CHUNK_SIZE as u64);
    index.set_hash(0, "0123".to_string());
    let source = DiskSource::Existing {
        index_path: "/i/base.idx".to_string(),
        index,
        fallback: None,
    };
    let mut disk = start_cas_nbd_server(MemStore::new(), source, Vec::new(), 0).ok().unwrap();
    assert_eq!(disk.source_index_path().as_deref(), Some("/i/base.idx"));
    assert_eq!(disk.flat_reads(0, 10).len(), 0);
    let saved = ChunkIndex::load(&disk.save_index().ok().unwrap()).ok().unwrap();
    assert_eq!(saved.parent_path().as_deref(), Some("/i/base.idx"));
    assert_eq!(saved.get_hash(0), Some("0123"));
}

#[test]
fn fallback_larger_than_the_disk_is_refused() {
    let source = DiskSource::Existing {
        index_path: "/i/base.idx".to_string(),
        index: ChunkIndex::new(100),
        fallback: Some(flat(101)),
    };
    let e = start_cas_nbd_server(MemStore::new(), source, Vec::new(), 1000).err().unwrap();
    assert_eq!(e, CorruptIndex { fallback_size: 101, disk_size: 100 });
    assert_eq!(
        e.message(),
        "fallback file size (101) exceeds index disk_size (100); index may be corrupt"
    );
    let source = DiskSource::Existing {
        index_path: "/i/base.idx".to_string(),
        index: ChunkIndex::new(100),
        fallback: Some(flat(100)),
    };
    assert!(start_cas_nbd_server(MemStore::new(), source, Vec::new(), 0).is_ok());
}

#[test]
fn parent_chain_follows_paths_until_one_is_missing() {
    let mut index = ChunkIndex::new(1);
    index.set_parent_path(Some("a".to_string()));
    let mut chain = ParentChain::load_parent_chain(&index);
    assert_eq!(chain.next.as_deref(), Some("a"));
    let mut a = ChunkIndex::new(1);
    a.set_parent_path(Some("b".to_string()));
    chain.loaded(Some(a));
    assert_eq!(chain.next.as_deref(), Some("b"));
    assert_eq!(chain.chain.len(), 1);
    chain.loaded(None);
    assert_eq!(chain.next, None);
    assert_eq!(chain.chain.len(), 1);
    let mut whole = ParentChain::load_parent_chain(&index);
    whole.loaded(Some(ChunkIndex::new(1)));
    assert_eq!(whole.next, None);
    assert_eq!(whole.chain[0].get_hash(0), Some(ZERO_CHUNK_HASH));
}

#[test]
fn accept_loop_serves_one_client_at_a_time() {
    let mut server = AcceptLoop::new();
    assert_eq!(server.active_fd, IDLE_FD);
    assert_eq!(server.to_interrupt(), None);
    assert_eq!(server.accepted(Some(7), false), AcceptAction::Serve);
    assert_eq!(server.to_interrupt(), Some(7));
    server.client_done();
    assert_eq!(server.to_interrupt(), None);
    assert_eq!(server.accepted(None, false), AcceptAction::Warn);
    assert!(!server.stopped);
    assert_eq!(server.accepted(Some(8), true), AcceptAction::Stop);
    assert!(server.stopped);
    assert_eq!(server.to_interrupt(), None);
    assert_eq!(AcceptLoop::new().accepted(None, true), AcceptAction::Stop);
    assert_eq!(AcceptLoop::new().accepted(Some(0), false), AcceptAction::Serve);
}

#[test]
fn handle_gives_the_address_and_checkpoints() {
    let mut flat_only: NbdHandle<MemStore> =
        NbdHandle { socket_path: "/run/nbd.sock".to_string(), cas_backend: None };
    assert_eq!(flat_only.uri(), "nbd+unix:///export?socket=/run/nbd.sock");
    match flat_only.save_checkpoint() {
        Err(e @ CheckpointError::NotCas) => {
            assert_eq!(e.message(), "save_checkpoint requires CAS backend")
        }
        _ => panic!("expected no checkpoint of a flat disk"),
    }
    flat_only.close();

    let mut disk = CasBackend::new(MemStore::new(), ChunkIndex::new(10), Vec::new());
    assert_eq!(disk.write(0, b"abc", &Vec::new()).ok(), Some(3));
    let mut handle = NbdHandle { socket_path: "s".to_string(), cas_backend: Some(disk) };
    let bytes = handle.save_checkpoint().ok().unwrap();
    let index = ChunkIndex::load(&bytes).ok().unwrap();
    // The chunk was a full one before the write was laid over it.
    let mut chunk = vec![0u8; CHUNK_SIZE];
    chunk[..3].copy_from_slice(b"abc");
    assert_eq!(index.get_hash(0), Some(blake3::hash(&chunk).to_hex().to_string().as_str()));
    handle.close();
}

#[test]
fn failed_checkpoint_reports_the_store() {
    let mut store = MemStore::new();
    store.full = true;
    let mut disk = CasBackend::new(store, ChunkIndex::new(10), Vec::new());
    assert_eq!(disk.write(0, b"abc", &Vec::new()).ok(), Some(3));
    let mut handle = NbdHandle { socket_path: "s".to_string(), cas_backend: Some(disk) };
    match handle.save_checkpoint() {
        Err(e) => assert_eq!(e.message(), "store is full"),
        Ok(_) => panic!("expected the store's error"),
    }
    handle.close();
}

/// A chunk store that several disks share.
#[derive(Clone)]
struct SharedStore {
    chunks: Arc<Mutex<HashMap<String, Vec<u8>>>>,
}

impl ChunkStore for SharedStore {
    fn put(&mut self, data: &[u8]) -> Result<String, String> {
        let hash = LocalChunkStore::open("cas").put(data).hash;
        self.chunks.lock().unwrap().insert(hash.clone(), data.to_vec());
        Ok(hash)
    }

    fn get(&self, hash: &str) -> Result<Option<Vec<u8>>, String> {
        Ok(self.chunks.lock().unwrap().get(hash).cloned())
    }
}

fn contents(disk: &mut CasBackend<SharedStore>, file: &[u8]) -> Vec<u8> {
    let len = disk.size() as usize;
    let window = disk
        .flat_reads(0, len)
        .into_iter()
        .map(|r| FlatReply {
            chunk_idx: r.chunk_idx,
            data: Ok(file[r.offset as usize..r.offset as usize + r.len].to_vec()),
        })
        .collect();
    let mut buf = vec![9u8; len];
    assert_eq!(disk.read(0, &mut buf, &window).ok(), Some(len));
    buf
}

#[test]
fn checkpoint_of_an_opened_and_extended_disk_restores_it() {
    let store = SharedStore { chunks: Arc::new(Mutex::new(HashMap::new())) };
    let file = vec![5u8; CHUNK_SIZE + 100];
    let size = file.len() as u64;

    // A first disk from the file alone, with something written to it.
    let source = DiskSource::Fresh { rootfs: flat(size) };
    let mut disk = start_cas_nbd_server(store.clone(), source, Vec::new(), 0).ok().unwrap();
    contents(&mut disk, &file);
    assert_eq!(disk.write(10, b"first", &Vec::new()).ok(), Some(5));
    let first = disk.save_index().ok().unwrap();
    let kept = contents(&mut disk, &file);
    assert_eq!(&kept[10..15], b"first");

    // A second one from that checkpoint, extended and written to.
    let open = |bytes: &[u8], path: &str, parents: Vec<ChunkIndex>, wanted: u64| {
        let source = DiskSource::Existing {
            index_path: path.to_string(),
            index: ChunkIndex::load(bytes).ok().unwrap(),
            fallback: Some(flat(size)),
        };
        start_cas_nbd_server(store.clone(), source, parents, wanted).ok().unwrap()
    };
    let mut disk = open(&first, "/a.idx", Vec::new(), 3 * CHUNK_SIZE as u64);
    assert_eq!(contents(&mut disk, &file)[..kept.len()], kept[..]);
    let window = Vec::new();
    assert_eq!(disk.write(2 * CHUNK_SIZE as u64, b"second", &window).ok(), Some(6));
    let second = disk.save_index().ok().unwrap();
    let whole = contents(&mut disk, &file);
    assert_eq!(&whole[10..15], b"first");
    assert_eq!(&whole[2 * CHUNK_SIZE..2 * CHUNK_SIZE + 6], b"second");

    // Opened again over the index that it was opened from, it is all there.
    let loaded = ChunkIndex::load(&second).ok().unwrap();
    assert_eq!(loaded.parent_path(), Some("/a.idx".to_string()));
    let parents = vec![ChunkIndex::load(&first).ok().unwrap()];
    let mut again = open(&second, "/b.idx", parents, 0);
    assert_eq!(contents(&mut again, &file), whole);
}
