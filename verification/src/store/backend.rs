//! The disk behind a block device: unsaved chunks over an index, its parents
//! and a flat file, with the chunks themselves in a chunk store.

use std::collections::HashMap;

use vstd::prelude::*;

use crate::store::chunk::ChunkStore;
use crate::store::index::{ChunkIndex, CHUNK_SIZE, ZERO_CHUNK_HASH};
use crate::text::str_eq;

verus! {

use vstd::std_specs::iter::IteratorSpec;

use crate::store::chunk::{blake3_hex, put_call, same_elsewhere, stored, PutCall};
use crate::store::disk::{
    all_zero, before_chunk, byte_or_zero, exact, extended, ingested, ingested_index,
    law_ingestion_keeps_undisturbed_chunks, layered_hash, lemma_hash_is_not_zero,
    lemma_ingest_step, lemma_ingested_hash, lemma_touch_step, only_noted, piece, piece_len, touched, undisturbed, with_hash, zeros, DiskView,
};
use crate::store::flush::{
    flush_calls, flush_failed, flushed, flushed_part, handed_over, lemma_flush_step,
    lemma_flushed_nothing, saved,
};
use crate::store::index::{chunks_for, encode_index, IndexView};
use crate::store::write::{
    carries, hit, hit_end, law_written_is_read_back, lemma_overlay_prefix, lemma_overwrite_step, overlay,
    overwritten, written,
};
use crate::text::text_of;

/// The flat disk file at the bottom of a chain, as far as it is known without
/// reading it.
pub struct FlatFileBackend {
    pub path: String,
    pub size: u64,
}

/// A read from the flat file that an operation depends on.
pub struct FlatRead {
    pub chunk_idx: usize,
    pub offset: u64,
    pub len: usize,
}

/// What such a read gave.
pub struct FlatReply {
    pub chunk_idx: usize,
    pub data: Result<Vec<u8>, String>,
}

/// Why an operation on the disk failed.
pub enum BackendError {
    /// The chunk store failed.
    Store(String),
    /// The flat file could not be read.
    Flat(String),
}

impl BackendError {
    /// The error as a message.
    pub fn message(&self) -> (r: String)
        ensures
            r@ == match self {
                BackendError::Store(e) => e@,
                BackendError::Flat(e) => e@,
            },
    {
        match self {
            BackendError::Store(e) => e.clone(),
            BackendError::Flat(e) => e.clone(),
        }
    }
}

/// The bytes are within the numbers that the machine has for offsets and for
/// chunks.
pub open spec fn addressable(offset: int, len: int) -> bool {
    &&& 0 <= offset
    &&& offset + len <= u64::MAX
    &&& (offset + len) / CHUNK_SIZE as int <= usize::MAX
}

/// There is a reply for chunk `idx`.
pub open spec fn has_reply(window: Seq<FlatReply>, idx: int) -> bool {
    exists|i: int| 0 <= i < window.len() && (#[trigger] window[i]).chunk_idx == idx
}

/// The replies are for different chunks, and each is as long as what a flat
/// file of `flat_len` bytes has of its chunk.
pub open spec fn window_fits(window: Seq<FlatReply>, flat_len: nat) -> bool {
    &&& forall|i: int, j: int|
        0 <= i < window.len() && 0 <= j < window.len() && i != j ==> (
        #[trigger] window[i]).chunk_idx != (#[trigger] window[j]).chunk_idx
    &&& forall|i: int|
        0 <= i < window.len() && (#[trigger] window[i]).data is Ok ==> {
            &&& window[i].chunk_idx * CHUNK_SIZE < flat_len
            &&& window[i].data->Ok_0@.len() == piece_len(flat_len, window[i].chunk_idx as int)
        }
}

/// The replies show the bytes of `flat`.
pub open spec fn shows(window: Seq<FlatReply>, flat: Seq<u8>, flat_len: nat) -> bool {
    &&& flat.len() == flat_len
    &&& forall|i: int|
        0 <= i < window.len() && (#[trigger] window[i]).data is Ok ==> window[i].data->Ok_0@
            == piece(flat, window[i].chunk_idx as int)
}

/// The replies answer every read that the disk needs for these bytes.
pub open spec fn covers(v: DiskView, offset: int, len: int, window: Seq<FlatReply>) -> bool {
    &&& window_fits(window, v.flat_len)
    &&& forall|idx: int|
        touched(offset, len, idx) && #[trigger] v.is_flat(idx) ==> has_reply(window, idx)
}

/// What the chunk store's reply means for a read: a chunk that is not there
/// reads as zeros.
pub fn chunk_or_zeros(reply: Result<Option<Vec<u8>>, String>) -> (r: Result<Vec<u8>, BackendError>)
    ensures
        match reply {
            Ok(Some(data)) => r == Ok::<Vec<u8>, BackendError>(data),
            Ok(None) => r matches Ok(data) && data@ == zeros(CHUNK_SIZE as nat),
            Err(e) => r == Err::<Vec<u8>, BackendError>(BackendError::Store(e)),
        },
{
    match reply {
        Ok(Some(data)) => Ok(data),
        Ok(None) => Ok(zero_chunk()),
        Err(e) => Err(BackendError::Store(e)),
    }
}

/// Takes up what came of putting a chunk into the store: its hash is noted in the
/// index, or the store's error is reported and the index left alone.
pub fn note_put(index: &mut ChunkIndex, chunk_idx: usize, reply: Result<String, String>) -> (r:
    Result<(), BackendError>)
    ensures
        match reply {
            Ok(hash) => r is Ok && final(index)@ == with_hash(
                old(index)@,
                chunk_idx as int,
                hash@,
            ),
            Err(e) => r == Err::<(), BackendError>(BackendError::Store(e)) && final(index)@ == old(
                index,
            )@,
        },
{
    match reply {
        Ok(hash) => {
            index.set_hash(chunk_idx, hash);
            Ok(())
        },
        Err(e) => Err(BackendError::Store(e)),
    }
}

/// A full chunk of zeros.
fn zero_chunk() -> (r: Vec<u8>)
    ensures
        r@ == zeros(CHUNK_SIZE as nat),
{
    let r = vec![0u8; CHUNK_SIZE];
    assert(r@ =~= zeros(CHUNK_SIZE as nat));
    r
}

/// Tells whether every byte is zero.
fn is_all_zero(data: &Vec<u8>) -> (r: bool)
    ensures
        r == all_zero(data@),
{
    let mut i: usize = 0;
    while i < data.len()
        invariant
            i <= data@.len(),
            forall|j: int| 0 <= j < i ==> data@[j] == 0,
        decreases data@.len() - i,
    {
        if data[i] != 0 {
            return false;
        }
        i = i + 1;
    }
    true
}

/// Copies `n` bytes of a chunk, from `at` on, into `buf` at `pos`. Past the end of
/// the chunk there are zeros.
fn copy_out(buf: &mut [u8], pos: usize, n: usize, chunk: &Vec<u8>, at: usize)
    requires
        pos + n <= old(buf)@.len(),
        at + n <= CHUNK_SIZE,
    ensures
        copied_out(old(buf)@, final(buf)@, pos as int, n as int, chunk@, at as int),
{
    let ghost held = buf@;
    let len: usize = buf.len();
    let mut i: usize = 0;
    while i < n
        invariant
            i <= n,
            pos + n <= len,
            len == buf@.len(),
            at + n <= CHUNK_SIZE,
            copied_out(held, buf@, pos as int, i as int, chunk@, at as int),
        decreases n - i,
    {
        let from: usize = at + i;
        let b: u8 = if from < chunk.len() {
            chunk[from]
        } else {
            0
        };
        buf[pos + i] = b;
        i = i + 1;
    }
}

/// `n` bytes of a chunk, from `at` on, were copied to `pos`, and nothing else.
spec fn copied_out(
    before: Seq<u8>,
    after: Seq<u8>,
    pos: int,
    n: int,
    chunk: Seq<u8>,
    at: int,
) -> bool {
    &&& after.len() == before.len()
    &&& forall|j: int|
        0 <= j < after.len() ==> #[trigger] after[j] == if pos <= j < pos + n {
            byte_or_zero(chunk, at + j - pos)
        } else {
            before[j]
        }
}

/// The reply for a chunk.
fn find_reply(window: &Vec<FlatReply>, chunk_idx: usize) -> (r: usize)
    requires
        has_reply(window@, chunk_idx as int),
    ensures
        r < window@.len(),
        window@[r as int].chunk_idx == chunk_idx,
{
    let mut i: usize = 0;
    while i < window.len()
        invariant
            i <= window@.len(),
            has_reply(window@, chunk_idx as int),
            forall|j: int| 0 <= j < i ==> (#[trigger] window@[j]).chunk_idx != chunk_idx,
        decreases window@.len() - i,
    {
        if window[i].chunk_idx == chunk_idx {
            return i;
        }
        i = i + 1;
    }
    assert(false);
    i
}

/// The unsaved chunks by position.
pub open spec fn dirty_chunks(m: Map<usize, Vec<u8>>) -> Map<int, Seq<u8>> {
    Map::new(
        |k: int| 0 <= k <= usize::MAX && m.contains_key(k as usize),
        |k: int| m[k as usize]@,
    )
}

/// The index and its parents, from the top down.
pub open spec fn index_layers(index: ChunkIndex, parents: Seq<ChunkIndex>) -> Seq<IndexView> {
    seq![index@] + Seq::new(parents.len(), |i: int| parents[i]@)
}

/// A disk whose chunks live in a chunk store.
pub struct CasBackend<S: ChunkStore> {
    store: S,
    index: ChunkIndex,
    dirty: HashMap<usize, Vec<u8>>,
    /// Parent indexes, nearest first.
    parents: Vec<ChunkIndex>,
    /// Flat file for lazy ingestion at the bottom of the chain.
    fallback: Option<FlatFileBackend>,
    /// The index path the disk was opened from: the parent of the next
    /// checkpoint.
    source_index_path: Option<String>,
}

impl<S: ChunkStore> View for CasBackend<S> {
    type V = DiskView;

    closed spec fn view(&self) -> DiskView {
        DiskView {
            dirty: dirty_chunks(self.dirty@),
            layers: index_layers(self.index, self.parents@),
            contents: self.store.contents(),
            flat_len: match self.fallback {
                Some(f) => f.size as nat,
                None => 0,
            },
        }
    }
}

/// Chunk `idx` was read: where it comes from the flat file and is not zeros only,
/// it is in the store now and noted in the index. Otherwise nothing happened.
pub open spec fn chunk_kept(before: DiskView, after: DiskView, flat: Seq<u8>, idx: int) -> bool {
    if before.ingestible(flat, idx) {
        &&& stored(before.contents, after.contents, piece(flat, idx))
        &&& blake3_hex(piece(flat, idx)).len() == 64
        &&& after.dirty == before.dirty
        &&& after.flat_len == before.flat_len
        &&& after.layers == before.layers.update(
            0,
            with_hash(before.layers[0], idx, blake3_hex(piece(flat, idx))),
        )
    } else {
        after == before
    }
}

/// Chunk `idx` could not be read. Where it comes from the flat file, the store may
/// have changed under its hash, and otherwise nothing happened.
pub open spec fn chunk_missed(before: DiskView, after: DiskView, flat: Seq<u8>, idx: int) -> bool {
    &&& after == DiskView { contents: after.contents, ..before }
    &&& if before.ingestible(flat, idx) {
        same_elsewhere(before.contents, after.contents, piece(flat, idx))
    } else {
        after == before
    }
}

/// What reading one chunk gives, and what it does to the disk.
pub open spec fn chunk_read(
    before: DiskView,
    after: DiskView,
    flat: Seq<u8>,
    idx: int,
    r: Result<Vec<u8>, BackendError>,
) -> bool {
    match r {
        Ok(data) => data@ == before.chunk(flat, idx) && chunk_kept(before, after, flat, idx),
        Err(_) => chunk_missed(before, after, flat, idx),
    }
}

/// The reply for chunk `idx`.
pub open spec fn reply_for(window: Seq<FlatReply>, idx: int) -> FlatReply {
    window[choose|i: int| 0 <= i < window.len() && (#[trigger] window[i]).chunk_idx == idx]
}

/// What reading chunk `idx` puts into the store: what the flat file has of it,
/// where it comes from there and is not zeros only.
pub open spec fn piece_to_put(v: DiskView, window: Seq<FlatReply>, idx: int) -> Option<Seq<u8>> {
    if v.is_flat(idx) {
        match reply_for(window, idx).data {
            Ok(data) => if all_zero(data@) {
                None
            } else {
                Some(data@)
            },
            Err(_) => None,
        }
    } else {
        None
    }
}

/// The calls of `ChunkStore::put` that reading chunk `idx` makes: one at most. It
/// gives the hash of what was put, or the error that the reading ends in.
pub open spec fn chunk_puts(
    v: DiskView,
    window: Seq<FlatReply>,
    idx: int,
    error: Option<Seq<char>>,
) -> Seq<PutCall> {
    match piece_to_put(v, window, idx) {
        Some(data) => seq![
            PutCall {
                data,
                reply: match error {
                    None => Ok(blake3_hex(data)),
                    Some(e) => Err(e),
                },
            },
        ],
        None => Seq::empty(),
    }
}

/// The calls of `ChunkStore::put` that reading the chunks `first..end` makes, in
/// their order.
pub open spec fn range_puts(v: DiskView, window: Seq<FlatReply>, first: int, end: int) -> Seq<
    PutCall,
>
    decreases end - first,
{
    if end <= first {
        Seq::empty()
    } else {
        range_puts(v, window, first, end - 1) + chunk_puts(v, window, end - 1, None)
    }
}

/// The chunk behind the last one that has a byte among the `len` bytes from
/// `offset` on.
pub open spec fn end_chunk(offset: int, len: int) -> int {
    if len > 0 {
        (offset + len - 1) / CHUNK_SIZE as int + 1
    } else {
        offset / CHUNK_SIZE as int
    }
}

/// The text of an error, if there is one.
pub open spec fn error_text<T>(r: Result<T, BackendError>) -> Option<Seq<char>> {
    match r {
        Ok(_) => None,
        Err(BackendError::Store(e)) => Some(e@),
        Err(BackendError::Flat(e)) => Some(e@),
    }
}

impl<S: ChunkStore> CasBackend<S> {
    /// The path of the index that the disk was opened from.
    pub closed spec fn source(&self) -> Option<Seq<char>> {
        text_of(self.source_index_path)
    }

    /// The calls of `ChunkStore::put` that were made on the store so far.
    pub closed spec fn puts(&self) -> Seq<PutCall> {
        self.store.puts()
    }

    /// The path of the flat file.
    pub closed spec fn flat_path(&self) -> Option<Seq<char>> {
        match self.fallback {
            Some(f) => Some(f.path@),
            None => None,
        }
    }

    /// The paths that the disk was opened with are as they were.
    pub open spec fn same_base(&self, other: &Self) -> bool {
        &&& self.source() == other.source()
        &&& self.flat_path() == other.flat_path()
    }

    /// A disk over an index and its parents, nearest first.
    pub fn new(store: S, index: ChunkIndex, parents: Vec<ChunkIndex>) -> (r: Self)
        ensures
            r@ == (DiskView {
                dirty: Map::empty(),
                layers: index_layers(index, parents@),
                contents: store.contents(),
                flat_len: 0,
            }),
            r.puts() == store.puts(),
            r.source() is None,
            r.flat_path() is None,
    {
        broadcast use vstd::std_specs::hash::group_hash_axioms;

        let r = CasBackend {
            store,
            index,
            dirty: HashMap::new(),
            parents,
            fallback: None,
            source_index_path: None,
        };
        assert(r@.dirty =~= Map::<int, Seq<u8>>::empty());
        r
    }

    /// A disk over an index, its parents and a flat file.
    pub fn with_fallback(
        store: S,
        index: ChunkIndex,
        fallback: FlatFileBackend,
        parents: Vec<ChunkIndex>,
    ) -> (r: Self)
        ensures
            r@ == (DiskView {
                dirty: Map::empty(),
                layers: index_layers(index, parents@),
                contents: store.contents(),
                flat_len: fallback.size as nat,
            }),
            r.puts() == store.puts(),
            r.source() is None,
            r.flat_path() == Some(fallback.path@),
    {
        broadcast use vstd::std_specs::hash::group_hash_axioms;

        let r = CasBackend {
            store,
            index,
            dirty: HashMap::new(),
            parents,
            fallback: Some(fallback),
            source_index_path: None,
        };
        assert(r@.dirty =~= Map::<int, Seq<u8>>::empty());
        r
    }

    /// The index that the disk was opened from.
    pub fn source_index_path(&self) -> (r: Option<String>)
        ensures
            text_of(r) == self.source(),
    {
        self.source_index_path.clone()
    }

    /// Says which index the disk was opened from.
    pub fn set_source_index_path(&mut self, path: Option<String>)
        ensures
            final(self)@ == old(self)@,
            final(self).puts() == old(self).puts(),
            final(self).source() == text_of(path),
            final(self).flat_path() == old(self).flat_path(),
    {
        self.source_index_path = path;
    }

    /// The size of the disk in bytes.
    pub fn size(&self) -> (r: u64)
        ensures
            r == self@.layers[0].disk_size,
    {
        self.index.disk_size()
    }

    /// Extends the disk. A size that is not larger changes nothing. The new
    /// chunks are still to be asked for, so every chunk of the disk is as it
    /// was.
    pub fn set_disk_size(&mut self, new_size: u64)
        requires
            old(self)@.layers[0].wf(),
            new_size + CHUNK_SIZE - 1 <= u64::MAX,
            chunks_for(new_size as nat) <= usize::MAX,
        ensures
            final(self).same_base(old(self)),
            final(self).puts() == old(self).puts(),
            extended(old(self)@, final(self)@, new_size as nat),
            new_size <= old(self)@.layers[0].disk_size ==> final(self)@ == old(self)@,
    {
        let ghost before = self@;
        assert(before.layers[0] == self.index@);
        if new_size > self.index.disk_size() {
            self.index.extend_to(new_size);
        }
        proof {
            assert(self@.layers[0] == self.index@);
            assert(self@.layers =~= before.layers.update(0, self@.layers[0]));
            assert forall|k: int| #[trigger] self@.layers[0].hash_at(k) == before.layers[0].hash_at(
                k,
            ) by {
                if new_size > before.layers[0].disk_size && 0 <= k < self@.layers[0].hashes.len() {
                    assert(self.index@.hashes[k] == before.layers[0].hash_at(k));
                }
            }
        }
    }

    /// The reads from the flat file that reading or writing these bytes
    /// depends on, in the order of their chunks.
    pub fn flat_reads(&self, offset: u64, len: usize) -> (r: Vec<FlatRead>)
        requires
            addressable(offset as int, len as int),
        ensures
            needed(self@, offset as int, len as int, r@),
    {
        broadcast use vstd::std_specs::hash::group_hash_axioms;

        let mut r: Vec<FlatRead> = Vec::new();
        if len == 0 {
            return r;
        }
        let flat_size: u64 = self.flat_size();
        let first: u64 = offset / CHUNK_SIZE as u64;
        let last: u64 = (offset + (len as u64 - 1)) / CHUNK_SIZE as u64;
        let mut idx: u64 = first;
        while idx <= last
            invariant
                addressable(offset as int, len as int),
                len > 0,
                first == offset as int / CHUNK_SIZE as int,
                last == (offset + len - 1) / CHUNK_SIZE as int,
                last < u64::MAX,
                first <= idx <= last + 1,
                flat_size == self@.flat_len,
                forall|i: int|
                    0 <= i < r@.len() ==> (#[trigger] r@[i]).chunk_idx < idx && fits_read(
                        self@,
                        offset as int,
                        len as int,
                        r@[i],
                    ),
                forall|i: int, j: int|
                    0 <= i < j < r@.len() ==> (#[trigger] r@[i]).chunk_idx < (
                    #[trigger] r@[j]).chunk_idx,
                forall|k: int|
                    touched(offset as int, len as int, k) && k < idx && #[trigger] self@.is_flat(k)
                        ==> exists|i: int| 0 <= i < r@.len() && (#[trigger] r@[i]).chunk_idx == k,
            decreases last + 1 - idx,
        {
            let chunk_idx: usize = idx as usize;
            let ghost before = r@;
            let start: u64 = idx * CHUNK_SIZE as u64;
            if start < flat_size && !self.dirty.contains_key(&chunk_idx) && self.resolve_hash(
                chunk_idx,
            ).is_none() {
                assert(self@.is_flat(chunk_idx as int));
                let left: u64 = flat_size - start;
                let piece: usize = if left < CHUNK_SIZE as u64 {
                    left as usize
                } else {
                    CHUNK_SIZE
                };
                r.push(FlatRead { chunk_idx, offset: start, len: piece });
                proof {
                    assert(r@[before.len() as int].chunk_idx == idx);
                    assert forall|k: int|
                        touched(offset as int, len as int, k) && k < idx + 1
                            && #[trigger] self@.is_flat(k) implies exists|i: int|
                        0 <= i < r@.len() && (#[trigger] r@[i]).chunk_idx == k by {
                        if k < idx {
                            let i = choose|i: int|
                                0 <= i < before.len() && (#[trigger] before[i]).chunk_idx == k;
                            assert(r@[i].chunk_idx == k);
                        }
                    }
                }
            } else {
                assert(!self@.is_flat(chunk_idx as int));
            }
            idx = idx + 1;
        }
        r
    }

    /// The hash under which a chunk is kept in the layers.
    fn resolve_hash(&self, chunk_idx: usize) -> (r: Option<String>)
        ensures
            r is Some <==> self@.hash_of(chunk_idx as int) != ZERO_CHUNK_HASH@,
            r matches Some(h) ==> h@ == self@.hash_of(chunk_idx as int),
    {
        let ghost layers = self@.layers;
        let ghost idx = chunk_idx as int;
        assert(layers[0] == self.index@);
        assert(layers.drop_first() =~= layers.skip(1));
        match self.index.get_hash(chunk_idx) {
            Some(h) => {
                if !str_eq(h, ZERO_CHUNK_HASH) {
                    return Some(h.to_string());
                }
            },
            None => {},
        }
        let mut j: usize = 0;
        while j < self.parents.len()
            invariant
                j <= self.parents@.len(),
                layers == index_layers(self.index, self.parents@),
                layers == self@.layers,
                idx == chunk_idx,
                layered_hash(layers, idx) == layered_hash(layers.skip(j + 1), idx),
            decreases self.parents@.len() - j,
        {
            assert(layers.skip(j + 1)[0] == self.parents@[j as int]@);
            assert(layers.skip(j + 1).drop_first() =~= layers.skip(j + 2));
            match self.parents[j].get_hash(chunk_idx) {
                Some(h) => {
                    if !str_eq(h, ZERO_CHUNK_HASH) {
                        return Some(h.to_string());
                    }
                },
                None => {},
            }
            j = j + 1;
        }
        assert(layers.skip(j + 1).len() == 0);
        None
    }

    /// The size of the flat file, 0 where there is none.
    fn flat_size(&self) -> (r: u64)
        ensures
            r == self@.flat_len,
    {
        match &self.fallback {
            Some(f) => f.size,
            None => 0,
        }
    }

    /// Reads the chunk with this hash from the store.
    fn fetch_chunk(&self, hash: &str) -> (r: Result<Vec<u8>, BackendError>)
        ensures
            r matches Ok(data) ==> data@ == self@.chunk_under(hash@),
            r matches Err(e) ==> e is Store,
    {
        chunk_or_zeros(self.store.get(hash))
    }

    /// Reads one chunk: from the unsaved ones, else from the store by its hash
    /// in the index or in the nearest parent that has one, else from the flat
    /// file, else zeros. What comes from the flat file and is not all zeros is
    /// put into the store and noted in the index.
    fn read_chunk(&mut self, chunk_idx: usize, window: &Vec<FlatReply>) -> (r: Result<
        Vec<u8>,
        BackendError,
    >)
        requires
            window_fits(window@, old(self)@.flat_len),
            old(self)@.is_flat(chunk_idx as int) ==> has_reply(window@, chunk_idx as int),
            chunk_idx * CHUNK_SIZE <= u64::MAX,
        ensures
            final(self).same_base(old(self)),
            only_noted(old(self)@, final(self)@, chunk_idx * CHUNK_SIZE, 1),
            old(self)@.dirty.contains_key(chunk_idx as int) ==> (r matches Ok(data)
                && data@ == old(self)@.dirty[chunk_idx as int]),
            !old(self)@.dirty.contains_key(chunk_idx as int) && old(self)@.hash_of(chunk_idx as int)
                == ZERO_CHUNK_HASH@ && !old(self)@.is_flat(chunk_idx as int) ==> r is Ok,
            forall|i: int|
                old(self)@.is_flat(chunk_idx as int) && 0 <= i < window@.len() && (
                #[trigger] window@[i]).chunk_idx == chunk_idx ==> match window@[i].data {
                    Ok(data) => all_zero(data@) ==> r is Ok,
                    Err(e) => r == Err::<Vec<u8>, BackendError>(BackendError::Flat(e)),
                },
            r matches Err(e) ==> blamed(old(self)@, window@, chunk_idx as int, e),
            final(self).puts() == old(self).puts() + chunk_puts(
                old(self)@,
                window@,
                chunk_idx as int,
                error_text(r),
            ),
            forall|flat: Seq<u8>| #[trigger]
                shows(window@, flat, old(self)@.flat_len) ==> chunk_read(
                    old(self)@,
                    final(self)@,
                    flat,
                    chunk_idx as int,
                    r,
                ),
    {
        broadcast use vstd::std_specs::hash::group_hash_axioms;

        let ghost before = self@;
        let ghost idx = chunk_idx as int;
        let ghost called = self.puts();
        assert(called + Seq::<PutCall>::empty() =~= called);
        match self.dirty.get(&chunk_idx) {
            Some(data) => {
                assert(before.dirty.contains_key(idx));
                return Ok(data.clone());
            },
            None => {},
        }
        assert(!before.dirty.contains_key(idx));
        match self.resolve_hash(chunk_idx) {
            Some(hash) => {
                return self.fetch_chunk(hash.as_str());
            },
            None => {},
        }
        let flat_size: u64 = self.flat_size();
        let offset: u64 = chunk_idx as u64 * CHUNK_SIZE as u64;
        if offset < flat_size {
            assert(before.is_flat(idx));
            let at: usize = find_reply(window, chunk_idx);
            assert(reply_for(window@, idx) == window@[at as int]);
            match &window[at].data {
                Err(e) => {
                    return Err(BackendError::Flat(e.clone()));
                },
                Ok(data) => {
                    if is_all_zero(data) {
                        return Ok(zero_chunk());
                    }
                    let reply = self.store.put(data.as_slice());
                    assert(self.puts() =~= called + seq![put_call(data@, reply)]);
                    match note_put(&mut self.index, chunk_idx, reply) {
                        Err(e) => {
                            assert(self@.layers =~= before.layers);
                            return Err(e);
                        },
                        Ok(_) => {
                            proof {
                                assert(self@.layers.drop_first() =~= before.layers.drop_first());
                                assert(self@.layers[0] == self.index@);
                                assert forall|flat: Seq<u8>| #[trigger]
                                    shows(window@, flat, before.flat_len) implies
                                    self@.layers == before.layers.update(
                                        0,
                                        with_hash(
                                            before.layers[0],
                                            idx,
                                            blake3_hex(piece(flat, idx)),
                                        ),
                                    ) by {
                                    assert(data@ == piece(flat, idx));
                                    assert(self@.layers =~= before.layers.update(
                                        0,
                                        with_hash(
                                            before.layers[0],
                                            idx,
                                            blake3_hex(piece(flat, idx)),
                                        ),
                                    ));
                                }
                            }
                            return Ok(data.clone());
                        },
                    }
                },
            }
        }
        Ok(zero_chunk())
    }

    /// Reads `buf.len()` bytes from `offset` on, given the replies to
    /// `flat_reads`. Past the end of a short chunk there are zeros.
    #[verifier::rlimit(30)]
    pub fn read(&mut self, offset: u64, buf: &mut [u8], window: &Vec<FlatReply>) -> (r: Result<
        usize,
        BackendError,
    >)
        requires
            addressable(offset as int, old(buf)@.len() as int),
            covers(old(self)@, offset as int, old(buf)@.len() as int, window@),
        ensures
            final(self).same_base(old(self)),
            final(buf)@.len() == old(buf)@.len(),
            only_noted(old(self)@, final(self)@, offset as int, old(buf)@.len() as int),
            r matches Ok(n) ==> n == old(buf)@.len(),
            (forall|idx: int|
                touched(offset as int, old(buf)@.len() as int, idx) ==> #[trigger] settled(
                    old(self)@,
                    window@,
                    idx,
                )) ==> r is Ok,
            r is Ok ==> answered(old(self)@, offset as int, old(buf)@.len() as int, window@),
            r is Ok ==> final(self).puts() == old(self).puts() + range_puts(
                old(self)@,
                window@,
                offset as int / CHUNK_SIZE as int,
                end_chunk(offset as int, old(buf)@.len() as int),
            ),
            r matches Err(e) ==> exists|pos: int| #[trigger]
                stopped_at(
                    old(self)@,
                    window@,
                    offset as int,
                    old(buf)@.len() as int,
                    pos,
                    e,
                ) && unsaved_filled(old(self)@, offset as int, final(buf)@, pos) && final(buf)@.skip(
                    pos,
                ) == old(buf)@.skip(pos) && final(self).puts() == old(self).puts() + failed_puts(
                    old(self)@,
                    window@,
                    offset as int,
                    pos,
                    e,
                ),
            r is Ok ==> unsaved_filled(
                old(self)@,
                offset as int,
                final(buf)@,
                old(buf)@.len() as int,
            ),
            forall|flat: Seq<u8>| #[trigger]
                shows(window@, flat, old(self)@.flat_len) ==> match r {
                    Ok(_) => {
                        &&& ingested(
                            old(self)@,
                            final(self)@,
                            flat,
                            offset as int,
                            old(buf)@.len() as int,
                        )
                        &&& filled(
                            old(self)@,
                            flat,
                            offset as int,
                            final(buf)@,
                            old(buf)@.len() as int,
                        )
                        &&& exact(old(self)@, flat, offset as int, old(buf)@.len() as int)
                            ==> final(buf)@ == old(self)@.bytes(
                            flat,
                            offset as int,
                            old(buf)@.len(),
                        )
                    },
                    Err(e) => read_failed(
                        old(self)@,
                        final(self)@,
                        window@,
                        flat,
                        offset as int,
                        old(buf)@,
                        final(buf)@,
                        e,
                    ),
                },
    {
        let ghost before = self@;
        let ghost start = offset as int;
        let ghost called = self.puts();
        assert(called + Seq::<PutCall>::empty() =~= called);
        let len: usize = buf.len();
        let mut pos: usize = 0;
        proof {
            assert(before.layers.len() > 0);
            assert forall|flat: Seq<u8>| #[trigger] shows(window@, flat, before.flat_len) implies
                ingested(before, self@, flat, start, 0) by {
                lemma_ingested_nothing(before, flat, start);
            }
        }
        while pos < len
            invariant
                before == old(self)@,
                before.layers.len() > 0,
                start == offset,
                len == buf@.len() == old(buf)@.len(),
                pos <= len,
                addressable(offset as int, len as int),
                covers(before, offset as int, len as int, window@),
                self.same_base(old(self)),
                only_noted(before, self@, start, pos as int),
                answered(before, start, pos as int, window@),
                called == old(self).puts(),
                self.puts() == called + range_puts(
                    before,
                    window@,
                    start / CHUNK_SIZE as int,
                    end_chunk(start, pos as int),
                ),
                pos == 0 || pos == len || (start + pos) % CHUNK_SIZE as int == 0,
                forall|flat: Seq<u8>| #[trigger]
                    shows(window@, flat, before.flat_len) ==> ingested(
                        before,
                        self@,
                        flat,
                        start,
                        pos as int,
                    ),
                forall|flat: Seq<u8>| #[trigger]
                    shows(window@, flat, before.flat_len) ==> filled(
                        before,
                        flat,
                        start,
                        buf@,
                        pos as int,
                    ),
                unsaved_filled(before, start, buf@, pos as int),
                buf@.skip(pos as int) == old(buf)@.skip(pos as int),
            decreases len - pos,
        {
            let file_offset: u64 = offset + pos as u64;
            let chunk_idx: usize = (file_offset / CHUNK_SIZE as u64) as usize;
            let offset_in_chunk: usize = (file_offset % CHUNK_SIZE as u64) as usize;
            let remaining_in_chunk: usize = CHUNK_SIZE - offset_in_chunk;
            let to_read: usize = if remaining_in_chunk < len - pos {
                remaining_in_chunk
            } else {
                len - pos
            };
            let ghost now = self@;
            let ghost idx = chunk_idx as int;
            proof {
                lemma_touch_step(start, pos as int, to_read as int);
                assert(touched(start, len as int, idx));
                lemma_same_source(before, now, start, pos as int, idx);
                lemma_put_step(before, now, called, window@, start, pos as int, to_read as int);
            }
            let chunk_data = match self.read_chunk(chunk_idx, window) {
                Ok(data) => data,
                Err(e) => {
                    proof {
                        lemma_only_noted_step(before, now, self@, start, pos as int, len as int, idx);
                        if forall|k: int|
                            touched(start, len as int, k) ==> #[trigger] settled(
                                before,
                                window@,
                                k,
                            ) {
                            assert(settled(before, window@, idx));
                        }
                        assert(stopped_at(before, window@, start, len as int, pos as int, e));
                        assert forall|flat: Seq<u8>| #[trigger]
                            shows(window@, flat, before.flat_len) implies read_failed(
                            before,
                            self@,
                            window@,
                            flat,
                            start,
                            old(buf)@,
                            buf@,
                            e,
                        ) by {
                            assert(filled(before, flat, start, buf@, pos as int));
                            assert(ingested(before, now, flat, start, pos as int));
                            assert(chunk_read(now, self@, flat, idx, Err(e)));
                        }
                    }
                    return Err(e);
                },
            };
            proof {
                lemma_only_noted_step(
                    before,
                    now,
                    self@,
                    start,
                    pos as int,
                    pos + to_read,
                    idx,
                );
                assert forall|flat: Seq<u8>| #[trigger]
                    shows(window@, flat, before.flat_len) implies ingested(
                    before,
                    self@,
                    flat,
                    start,
                    pos + to_read,
                ) by {
                    lemma_ingest_step(
                        before,
                        now,
                        self@,
                        flat,
                        start,
                        pos as int,
                        to_read as int,
                        idx,
                    );
                }
            }
            let ghost held = buf@;
            copy_out(buf, pos, to_read, &chunk_data, offset_in_chunk);
            proof {
                lemma_unsaved_step(
                    before,
                    chunk_data@,
                    start,
                    held,
                    buf@,
                    pos as int,
                    to_read as int,
                );
                assert forall|flat: Seq<u8>| #[trigger]
                    shows(window@, flat, before.flat_len) implies filled(
                    before,
                    flat,
                    start,
                    buf@,
                    pos + to_read,
                ) by {
                    lemma_fill_step(
                        before,
                        now,
                        flat,
                        chunk_data@,
                        start,
                        held,
                        buf@,
                        pos as int,
                        to_read as int,
                    );
                }
                lemma_rest_of_buffer(old(buf)@, held, buf@, pos as int, to_read as int);
            }
            pos = pos + to_read;
        }
        proof {
            assert forall|flat: Seq<u8>| #[trigger]
                shows(window@, flat, before.flat_len) && exact(
                    before,
                    flat,
                    start,
                    len as int,
                ) implies buf@ == before.bytes(flat, start, len as nat) by {
                assert(filled(before, flat, start, buf@, len as int));
                assert forall|i: int| 0 <= i < len implies buf@[i] == before.byte(
                    flat,
                    start + i,
                ) by {
                    assert(touched(start, len as int, (start + i) / CHUNK_SIZE as int));
                }
                assert(buf@ =~= before.bytes(flat, start, len as nat));
            }
        }
        Ok(len)
    }

    /// Writes the part of `data` at `pos..pos + n`, which lies in one chunk: the
    /// chunk is read, overlaid and kept as an unsaved chunk.
    fn write_chunk(
        &mut self,
        offset: u64,
        data: &[u8],
        pos: usize,
        n: usize,
        window: &Vec<FlatReply>,
    ) -> (r: Result<(), BackendError>)
        requires
            0 < n,
            pos + n <= data@.len(),
            addressable(offset as int, data@.len() as int),
            (offset + pos) % CHUNK_SIZE as int + n <= CHUNK_SIZE,
            pos == 0 || (offset + pos) % CHUNK_SIZE as int == 0,
            window_fits(window@, old(self)@.flat_len),
            old(self)@.is_flat((offset + pos) / CHUNK_SIZE as int) ==> has_reply(
                window@,
                (offset + pos) / CHUNK_SIZE as int,
            ),
        ensures
            ({
                let idx = (offset + pos) / CHUNK_SIZE as int;
                let noted = DiskView { dirty: old(self)@.dirty, ..final(self)@ };
                &&& final(self).same_base(old(self))
                &&& only_noted(old(self)@, noted, idx * CHUNK_SIZE, 1)
                &&& settled(old(self)@, window@, idx) ==> r is Ok
                &&& final(self).puts() == old(self).puts() + chunk_puts(
                    old(self)@,
                    window@,
                    idx,
                    error_text(r),
                )
                &&& match r {
                    Ok(_) => {
                        &&& old(self)@.is_flat(idx) ==> forall|i: int|
                            0 <= i < window@.len() && (#[trigger] window@[i]).chunk_idx == idx
                                ==> window@[i].data is Ok
                        &&& final(self)@.dirty == old(self)@.dirty.insert(
                            idx,
                            final(self)@.dirty[idx],
                        )
                        &&& carries(
                            final(self)@.dirty[idx],
                            idx,
                            offset as int,
                            data@.take(pos + n),
                        )
                    },
                    Err(e) => {
                        &&& blamed(old(self)@, window@, idx, e)
                        &&& final(self)@.dirty == old(self)@.dirty
                    },
                }
                &&& forall|flat: Seq<u8>| #[trigger]
                    shows(window@, flat, old(self)@.flat_len) ==> match r {
                        Ok(_) => chunk_kept(old(self)@, noted, flat, idx) && final(self)@.dirty[idx]
                            == overlay(
                            old(self)@.chunk(flat, idx),
                            idx,
                            offset as int,
                            data@.take(pos + n),
                        ),
                        Err(_) => chunk_missed(old(self)@, final(self)@, flat, idx),
                    }
            }),
    {
        broadcast use vstd::std_specs::hash::group_hash_axioms;

        let file_offset: u64 = offset + pos as u64;
        let chunk_idx: usize = (file_offset / CHUNK_SIZE as u64) as usize;
        let offset_in_chunk: usize = (file_offset % CHUNK_SIZE as u64) as usize;
        let ghost idx = chunk_idx as int;
        let ghost before = self@;
        let mut chunk_data = match self.read_chunk(chunk_idx, window) {
            Ok(data) => data,
            Err(e) => {
                assert((DiskView { dirty: before.dirty, ..self@ }) == self@);
                return Err(e);
            },
        };
        let ghost read = self@;
        let ghost found = chunk_data@;
        if chunk_data.len() < offset_in_chunk + n {
            chunk_data.resize(offset_in_chunk + n, 0);
        }
        let ghost grown = chunk_data@;
        let len: usize = data.len();
        let mut i: usize = 0;
        while i < n
            invariant
                i <= n,
                pos + n <= len,
                len == data@.len(),
                offset_in_chunk + n <= CHUNK_SIZE,
                offset_in_chunk + n <= chunk_data@.len(),
                chunk_data@.len() == grown.len(),
                forall|j: int|
                    0 <= j < grown.len() ==> #[trigger] chunk_data@[j] == if offset_in_chunk <= j
                        < offset_in_chunk + i {
                        data@[j - offset_in_chunk + pos]
                    } else {
                        grown[j]
                    },
            decreases n - i,
        {
            chunk_data.set(offset_in_chunk + i, data[pos + i]);
            i = i + 1;
        }
        let ghost laid = overlay(found, idx, offset as int, data@.take(pos + n));
        proof {
            let start = offset as int;
            let end = pos + n;
            assert(data@.take(end).len() == end);
            assert(start + pos == idx * CHUNK_SIZE + offset_in_chunk);
            assert(hit_end(idx, start, end) == offset_in_chunk + n);
            assert forall|j: int| hit(idx, start, end, j) == (offset_in_chunk <= j
                < offset_in_chunk + n) by {}
            assert(chunk_data@ =~= laid);
        }
        self.dirty.insert(chunk_idx, chunk_data);
        proof {
            assert(self@.dirty =~= before.dirty.insert(idx, laid));
            assert((DiskView { dirty: before.dirty, ..self@ }) == read);
        }
        Ok(())
    }

    /// Writes `data` from `offset` on, given the replies to `flat_reads`. Each
    /// chunk is read, overlaid and kept as an unsaved chunk.
    #[verifier::rlimit(30)]
    pub fn write(&mut self, offset: u64, data: &[u8], window: &Vec<FlatReply>) -> (r: Result<
        usize,
        BackendError,
    >)
        requires
            addressable(offset as int, data@.len() as int),
            covers(old(self)@, offset as int, data@.len() as int, window@),
        ensures
            final(self).same_base(old(self)),
            only_noted(
                old(self)@,
                (DiskView { dirty: old(self)@.dirty, ..final(self)@ }),
                offset as int,
                data@.len() as int,
            ),
            r matches Ok(n) ==> n == data@.len() && overwritten(
                old(self)@,
                final(self)@,
                offset as int,
                data@,
            ),
            (forall|idx: int|
                touched(offset as int, data@.len() as int, idx) ==> #[trigger] settled(
                    old(self)@,
                    window@,
                    idx,
                )) ==> r is Ok,
            r is Ok ==> answered(old(self)@, offset as int, data@.len() as int, window@),
            r is Ok ==> final(self).puts() == old(self).puts() + range_puts(
                old(self)@,
                window@,
                offset as int / CHUNK_SIZE as int,
                end_chunk(offset as int, data@.len() as int),
            ),
            r matches Err(e) ==> exists|pos: int| #[trigger]
                stopped_at(
                    old(self)@,
                    window@,
                    offset as int,
                    data@.len() as int,
                    pos,
                    e,
                ) && overwritten(old(self)@, final(self)@, offset as int, data@.take(pos))
                    && final(self).puts() == old(self).puts() + failed_puts(
                    old(self)@,
                    window@,
                    offset as int,
                    pos,
                    e,
                ),
            forall|flat: Seq<u8>| #[trigger]
                shows(window@, flat, old(self)@.flat_len) ==> match r {
                    Ok(_) => written(old(self)@, final(self)@, flat, offset as int, data@),
                    Err(e) => write_failed(
                        old(self)@,
                        final(self)@,
                        window@,
                        flat,
                        offset as int,
                        data@,
                        e,
                    ),
                },
    {
        broadcast use vstd::std_specs::hash::group_hash_axioms;

        let ghost before = self@;
        let ghost start = offset as int;
        let ghost called = self.puts();
        assert(called + Seq::<PutCall>::empty() =~= called);
        let len: usize = data.len();
        let mut pos: usize = 0;
        proof {
            assert(before.layers.len() > 0);
            assert(data@.take(0).len() == 0);
            assert(overwritten(before, self@, start, data@.take(0)));
            assert((DiskView { dirty: before.dirty, ..self@ }) == before);
            assert forall|flat: Seq<u8>| #[trigger] shows(window@, flat, before.flat_len) implies
                written(before, self@, flat, start, data@.take(0)) by {
                lemma_ingested_nothing(before, flat, start);
            }
        }
        while pos < len
            invariant
                before == old(self)@,
                before.layers.len() > 0,
                start == offset,
                len == data@.len(),
                pos <= len,
                addressable(offset as int, len as int),
                covers(before, offset as int, len as int, window@),
                self.same_base(old(self)),
                only_noted(
                    before,
                    (DiskView { dirty: before.dirty, ..self@ }),
                    start,
                    pos as int,
                ),
                answered(before, start, pos as int, window@),
                called == old(self).puts(),
                self.puts() == called + range_puts(
                    before,
                    window@,
                    start / CHUNK_SIZE as int,
                    end_chunk(start, pos as int),
                ),
                pos == 0 || pos == len || (start + pos) % CHUNK_SIZE as int == 0,
                overwritten(before, self@, start, data@.take(pos as int)),
                forall|flat: Seq<u8>| #[trigger]
                    shows(window@, flat, before.flat_len) ==> written(
                        before,
                        self@,
                        flat,
                        start,
                        data@.take(pos as int),
                    ),
            decreases len - pos,
        {
            let file_offset: u64 = offset + pos as u64;
            let chunk_idx: usize = (file_offset / CHUNK_SIZE as u64) as usize;
            let offset_in_chunk: usize = (file_offset % CHUNK_SIZE as u64) as usize;
            let remaining_in_chunk: usize = CHUNK_SIZE - offset_in_chunk;
            let to_write: usize = if remaining_in_chunk < len - pos {
                remaining_in_chunk
            } else {
                len - pos
            };
            let ghost now = self@;
            let ghost idx = chunk_idx as int;
            let ghost base = DiskView { dirty: before.dirty, ..now };
            let ghost end = pos + to_write;
            proof {
                lemma_touch_step(start, pos as int, to_write as int);
                assert(touched(start, len as int, idx));
                assert(data@.take(pos as int).len() == pos);
                assert(now.dirty.contains_key(idx) == before.dirty.contains_key(idx));
                lemma_same_source(before, base, start, pos as int, idx);
                assert(now.hash_of(idx) == base.hash_of(idx));
                assert(now.is_flat(idx) == before.is_flat(idx));
                lemma_put_step(before, now, called, window@, start, pos as int, to_write as int);
            }
            match self.write_chunk(offset, data, pos, to_write, window) {
                Ok(_) => {
                    proof {
                        let after = DiskView { dirty: before.dirty, ..self@ };
                        lemma_noted_with(now, self@, before.dirty, idx);
                        lemma_only_noted_step(before, base, after, start, pos as int, end, idx);
                        lemma_overwrite_step(before, now, self@, start, data@, pos as int, end, idx);
                        assert forall|flat: Seq<u8>| #[trigger]
                            shows(window@, flat, before.flat_len) implies written(
                            before,
                            self@,
                            flat,
                            start,
                            data@.take(end),
                        ) by {
                            lemma_write_step(
                                before,
                                now,
                                self@,
                                flat,
                                start,
                                data@,
                                pos as int,
                                end,
                                idx,
                            );
                        }
                    }
                },
                Err(e) => {
                    proof {
                        let after = DiskView { dirty: before.dirty, ..self@ };
                        lemma_noted_with(now, self@, before.dirty, idx);
                        lemma_only_noted_step(before, base, after, start, pos as int, len as int, idx);
                        if forall|k: int|
                            touched(start, len as int, k) ==> #[trigger] settled(
                                before,
                                window@,
                                k,
                            ) {
                            assert(settled(before, window@, idx));
                        }
                        assert(stopped_at(before, window@, start, len as int, pos as int, e));
                        assert(overwritten(before, self@, start, data@.take(pos as int)));
                        assert forall|flat: Seq<u8>| #[trigger]
                            shows(window@, flat, before.flat_len) implies write_failed(
                            before,
                            self@,
                            window@,
                            flat,
                            start,
                            data@,
                            e,
                        ) by {
                            assert(written(before, now, flat, start, data@.take(pos as int)));
                        }
                    }
                    return Err(e);
                },
            }
            pos = pos + to_write;
        }
        assert(data@.take(len as int) =~= data@);
        Ok(len)
    }

    /// Puts the unsaved chunks into the store, in no particular order, and notes
    /// them in the index. Where one cannot be stored, it and those still to come
    /// are dropped.
    pub fn flush(&mut self) -> (r: Result<(), BackendError>)
        ensures
            final(self).same_base(old(self)),
            match r {
                Ok(_) => flushed(old(self)@, final(self)@),
                Err(e) => e is Store && flush_failed(old(self)@, final(self)@),
            },
            flush_calls(old(self)@, old(self).puts(), final(self).puts(), store_error(r)),
    {
        broadcast use vstd::std_specs::hash::group_hash_axioms;

        let ghost before = self@;
        let keys = dirty_positions(&self.dirty);
        let mut i: usize = 0;
        let ghost mut done = Set::<int>::empty();
        let ghost called = self.puts();
        let ghost order = Seq::new(keys@.len(), |j: int| keys@[j] as int);
        proof {
            lemma_flushed_nothing(before);
            assert(called.take(called.len() as int) =~= called);
            assert(order.take(0) =~= Seq::<int>::empty());
        }
        while i < keys.len()
            invariant
                before == old(self)@,
                before.layers.len() > 0,
                i <= keys@.len(),
                self.same_base(old(self)),
                keys@.no_duplicates(),
                forall|k: int|
                    before.dirty.contains_key(k) <==> exists|j: int|
                        0 <= j < keys@.len() && #[trigger] keys@[j] == k,
                forall|k: int| #[trigger]
                    done.contains(k) <==> exists|j: int| 0 <= j < i && #[trigger] keys@[j] == k,
                self@.dirty == before.dirty.remove_keys(done),
                flushed_part(before, self@, done),
                called == old(self).puts(),
                order == Seq::new(keys@.len(), |j: int| keys@[j] as int),
                handed_over(before, called, self.puts(), order.take(i as int)),
                forall|j: int|
                    called.len() <= j < self.puts().len() ==> (#[trigger] self.puts()[j]).reply is Ok,
            decreases keys@.len() - i,
        {
            let ghost now = self@;
            let ghost held = self.dirty@;
            let ghost logged = self.puts();
            let ghost k = keys@[i as int] as int;
            proof {
                assert(!done.contains(k)) by {
                    if done.contains(k) {
                        let j = choose|j: int| 0 <= j < i && #[trigger] keys@[j] == k;
                        assert(keys@[j] == keys@[i as int]);
                    }
                }
                assert(before.dirty.contains_key(k));
                assert(now.dirty.contains_key(k));
            }
            match self.dirty.remove(&keys[i]) {
                Some(data) => {
                    assert(now.dirty[k] == before.dirty[k]);
                    assert(held[keys@[i as int]] == data);
                    assert(data@ == before.dirty[k]);
                    let reply = self.store.put(data.as_slice());
                    proof {
                        assert(self.puts() == logged.push(put_call(before.dirty[k], reply)));
                        assert(self.puts().take(logged.len() as int) =~= logged);
                        lemma_hand_over(before, called, logged, self.puts(), order, i as int);
                    }
                    match note_put(&mut self.index, keys[i], reply) {
                        Ok(_) => {
                            proof {
                                assert(self@.layers =~= now.layers.update(
                                    0,
                                    with_hash(now.layers[0], k, blake3_hex(before.dirty[k])),
                                ));
                                lemma_flush_step(before, now, self@, done, k);
                                done = done.insert(k);
                                assert(self.dirty@ == held.remove(keys@[i as int]));
                                assert(self@.dirty =~= now.dirty.remove(k));
                                assert(self@.dirty =~= before.dirty.remove_keys(done));
                            }
                        },
                        Err(e) => {
                            self.dirty.clear();
                            proof {
                                assert(self@.dirty =~= Map::<int, Seq<u8>>::empty());
                                assert(self@.layers =~= now.layers);
                                let made = order.take(i + 1);
                                assert(handed_over(before, called, self.puts(), made));
                                assert(self.puts().last() == put_call(before.dirty[k], reply));
                                assert forall|j: int|
                                    called.len() <= j < self.puts().len() - 1 implies (
                                #[trigger] self.puts()[j]).reply is Ok by {
                                    assert(self.puts()[j] == logged[j]);
                                }
                                assert(flush_failed(before, self@)) by {
                                    assert(flushed_part(before, now, done));
                                    assert(!done.contains(k));
                                }
                            }
                            return Err(e);
                        },
                    }
                },
                None => {
                    assert(false);
                },
            }
            i = i + 1;
        }
        proof {
            assert(done =~= before.dirty.dom()) by {
                assert forall|k: int| done.contains(k) <==> before.dirty.contains_key(k) by {}
            }
            assert(self@.dirty =~= Map::<int, Seq<u8>>::empty());
            assert(order.take(i as int) =~= order);
            assert forall|k: int| #[trigger] before.dirty.contains_key(k) implies order.contains(
                k,
            ) by {
                let j = choose|j: int| 0 <= j < keys@.len() && #[trigger] keys@[j] == k;
                assert(order[j] == k);
            }
        }
        Ok(())
    }

    /// Flushes, and gives the bytes of the checkpoint: the index as a delta over
    /// the one that the disk was opened from. The path of the flat file goes
    /// with it, so that the chain always ends there.
    pub fn save_index(&mut self) -> (r: Result<Vec<u8>, BackendError>)
        ensures
            final(self).same_base(old(self)),
            match r {
                Ok(bytes) => {
                    &&& saved(old(self)@, final(self)@, old(self).source(), old(self).flat_path())
                    &&& bytes@ == encode_index(final(self)@.layers[0])
                },
                Err(e) => e is Store && flush_failed(old(self)@, final(self)@),
            },
            flush_calls(
                old(self)@,
                old(self).puts(),
                final(self).puts(),
                store_error(
                    match r {
                        Ok(_) => Ok(()),
                        Err(e) => Err(e),
                    },
                ),
            ),
    {
        let ghost before = self@;
        match self.flush() {
            Ok(_) => {},
            Err(e) => {
                return Err(e);
            },
        }
        let ghost mid = self@;
        assert(mid.layers[0] == self.index@);
        self.index.set_parent_path(self.source_index_path.clone());
        if self.index.fallback_path().is_none() {
            match &self.fallback {
                Some(f) => {
                    self.index.set_fallback_path(Some(f.path.clone()));
                },
                None => {},
            }
        }
        let bytes = self.index.save();
        proof {
            assert(self@.layers[0] == self.index@);
            let restored = IndexView {
                parent_path: before.layers[0].parent_path,
                fallback_path: before.layers[0].fallback_path,
                ..self@.layers[0]
            };
            assert(restored == mid.layers[0]);
            assert(self@.layers.update(0, restored) =~= mid.layers);
        }
        Ok(bytes)
    }
}

/// The text of the store's error, if there is one.
pub open spec fn store_error(r: Result<(), BackendError>) -> Option<Seq<char>> {
    match r {
        Err(BackendError::Store(e)) => Some(e@),
        _ => None,
    }
}

/// The calls of `ChunkStore::put` of an operation that ended at `pos` with `e`:
/// those for the chunks before it, and the one, if any, that gave the error.
pub open spec fn failed_puts(
    v: DiskView,
    window: Seq<FlatReply>,
    offset: int,
    pos: int,
    e: BackendError,
) -> Seq<PutCall> {
    let at = (offset + pos) / CHUNK_SIZE as int;
    range_puts(v, window, offset / CHUNK_SIZE as int, at) + chunk_puts(
        v,
        window,
        at,
        error_text(Err::<(), BackendError>(e)),
    )
}

/// The calls for one more chunk follow those for the chunks before it.
proof fn lemma_put_step(
    before: DiskView,
    now: DiskView,
    called: Seq<PutCall>,
    window: Seq<FlatReply>,
    offset: int,
    pos: int,
    step: int,
)
    requires
        0 <= offset,
        0 <= pos,
        0 < step,
        (offset + pos) % CHUNK_SIZE as int + step <= CHUNK_SIZE,
        pos == 0 || (offset + pos) % CHUNK_SIZE as int == 0,
        now.is_flat((offset + pos) / CHUNK_SIZE as int) == before.is_flat(
            (offset + pos) / CHUNK_SIZE as int,
        ),
    ensures
        ({
            let first = offset / CHUNK_SIZE as int;
            let idx = (offset + pos) / CHUNK_SIZE as int;
            let done = called + range_puts(before, window, first, end_chunk(offset, pos));
            &&& done + chunk_puts(now, window, idx, None) == called + range_puts(
                before,
                window,
                first,
                end_chunk(offset, pos + step),
            )
            &&& forall|e: BackendError|
                done + #[trigger] chunk_puts(
                    now,
                    window,
                    idx,
                    error_text(Err::<Vec<u8>, BackendError>(e)),
                ) == called + failed_puts(before, window, offset, pos, e)
        }),
{
    let first = offset / CHUNK_SIZE as int;
    let idx = (offset + pos) / CHUNK_SIZE as int;
    assert(end_chunk(offset, pos) == idx);
    assert(end_chunk(offset, pos + step) == idx + 1);
    let done = range_puts(before, window, first, idx);
    let next = chunk_puts(before, window, idx, None);
    assert(chunk_puts(now, window, idx, None) == next);
    assert((called + done) + next =~= called + (done + next));
    assert forall|e: BackendError|
        (called + done) + #[trigger] chunk_puts(
            now,
            window,
            idx,
            error_text(Err::<Vec<u8>, BackendError>(e)),
        ) == called + failed_puts(before, window, offset, pos, e) by {
        let last = chunk_puts(before, window, idx, error_text(Err::<(), BackendError>(e)));
        assert((called + done) + last =~= called + (done + last));
    }
}

/// One more chunk is handed to the store.
proof fn lemma_hand_over(
    v: DiskView,
    before: Seq<PutCall>,
    now: Seq<PutCall>,
    next: Seq<PutCall>,
    order: Seq<int>,
    i: int,
)
    requires
        0 <= i < order.len(),
        order.no_duplicates(),
        v.dirty.contains_key(order[i]),
        handed_over(v, before, now, order.take(i)),
        next.len() == now.len() + 1,
        next.take(now.len() as int) == now,
        next.last().data == v.dirty[order[i]],
    ensures
        handed_over(v, before, next, order.take(i + 1)),
{
    let made = order.take(i + 1);
    assert forall|j: int| 0 <= j < made.len() implies v.dirty.contains_key(#[trigger] made[j]) by {
        if j < i {
            assert(made[j] == order.take(i)[j]);
        }
    }
    assert(next.take(before.len() as int) =~= now.take(before.len() as int));
    assert forall|j: int| 0 <= j < made.len() implies #[trigger] next[before.len() + j].data
        == v.dirty[made[j]] by {
        if j < i {
            assert(next.take(now.len() as int)[before.len() + j] == now[before.len() + j]);
            assert(made[j] == order.take(i)[j]);
        }
    }
}

/// The positions of the unsaved chunks.
fn dirty_positions(dirty: &HashMap<usize, Vec<u8>>) -> (r: Vec<usize>)
    ensures
        r@.no_duplicates(),
        forall|k: int|
            dirty_chunks(dirty@).contains_key(k) <==> exists|j: int|
                0 <= j < r@.len() && #[trigger] r@[j] == k,
{
    broadcast use vstd::std_specs::hash::group_hash_axioms;

    let mut r: Vec<usize> = Vec::new();
    let keys = dirty.keys();
    let ghost all = keys.remaining().unref();
    assert(all.to_set() == dirty@.dom());
    assert(all.no_duplicates());
    for k in it: keys
        invariant
            it.seq().unref() == all,
            r@ == all.take(it.index() as int),
    {
        r.push(*k);
    }
    proof {
        assert(r@ =~= all);
        assert(r@.to_set() =~= dirty@.dom());
        assert forall|k: int|
            dirty_chunks(dirty@).contains_key(k) <==> exists|j: int|
                0 <= j < r@.len() && #[trigger] r@[j] == k by {
            if dirty_chunks(dirty@).contains_key(k) {
                assert(r@.to_set().contains(k as usize));
                assert(r@.contains(k as usize));
            }
            if exists|j: int| 0 <= j < r@.len() && #[trigger] r@[j] == k {
                let j = choose|j: int| 0 <= j < r@.len() && #[trigger] r@[j] == k;
                assert(r@.contains(r@[j]));
                assert(r@.to_set().contains(k as usize));
            }
        }
    }
    r
}

/// A read of what the flat file has of one of the chunks of these bytes.
pub open spec fn fits_read(v: DiskView, offset: int, len: int, read: FlatRead) -> bool {
    &&& touched(offset, len, read.chunk_idx as int)
    &&& v.is_flat(read.chunk_idx as int)
    &&& read.offset == read.chunk_idx * CHUNK_SIZE
    &&& read.len == piece_len(v.flat_len, read.chunk_idx as int)
}

/// The reads are the ones that these bytes need, each once and in order.
pub open spec fn needed(v: DiskView, offset: int, len: int, reads: Seq<FlatRead>) -> bool {
    &&& forall|i: int| 0 <= i < reads.len() ==> fits_read(v, offset, len, #[trigger] reads[i])
    &&& forall|i: int, j: int|
        0 <= i < j < reads.len() ==> (#[trigger] reads[i]).chunk_idx < (
        #[trigger] reads[j]).chunk_idx
    &&& forall|k: int|
        touched(offset, len, k) && #[trigger] v.is_flat(k) ==> exists|i: int|
            0 <= i < reads.len() && (#[trigger] reads[i]).chunk_idx == k
}

/// Answering each of the needed reads, with as many bytes as it asks for or
/// with an error, is enough for a read or a write.
pub proof fn law_answered_reads_cover(
    v: DiskView,
    offset: int,
    len: int,
    reads: Seq<FlatRead>,
    window: Seq<FlatReply>,
)
    requires
        needed(v, offset, len, reads),
        window.len() == reads.len(),
        forall|i: int|
            0 <= i < reads.len() ==> (#[trigger] window[i]).chunk_idx == reads[i].chunk_idx && (
            window[i].data matches Ok(data) ==> data@.len() == reads[i].len),
    ensures
        covers(v, offset, len, window),
{
    assert forall|i: int, j: int|
        0 <= i < window.len() && 0 <= j < window.len() && i != j implies (
    #[trigger] window[i]).chunk_idx != (#[trigger] window[j]).chunk_idx by {
        assert(reads[i].chunk_idx != reads[j].chunk_idx) by {
            if i < j {
                assert(reads[i].chunk_idx < reads[j].chunk_idx);
            } else {
                assert(reads[j].chunk_idx < reads[i].chunk_idx);
            }
        }
    }
    assert forall|i: int| 0 <= i < window.len() && (#[trigger] window[i]).data is Ok implies {
        &&& window[i].chunk_idx * CHUNK_SIZE < v.flat_len
        &&& window[i].data->Ok_0@.len() == piece_len(v.flat_len, window[i].chunk_idx as int)
    } by {
        assert(fits_read(v, offset, len, reads[i]));
    }
    assert forall|idx: int| touched(offset, len, idx) && #[trigger] v.is_flat(idx) implies has_reply(
        window,
        idx,
    ) by {
        let i = choose|i: int| 0 <= i < reads.len() && (#[trigger] reads[i]).chunk_idx == idx;
        assert(window[i].chunk_idx == idx);
    }
}

/// The chunk at `pos`, which is where a chunk starts or the bytes do, could not
/// be had, and the ones before it could.
pub open spec fn stopped_at(
    v: DiskView,
    window: Seq<FlatReply>,
    offset: int,
    len: int,
    pos: int,
    e: BackendError,
) -> bool {
    &&& 0 <= pos < len
    &&& pos == 0 || (offset + pos) % CHUNK_SIZE as int == 0
    &&& answered(v, offset, pos, window)
    &&& blamed(v, window, (offset + pos) / CHUNK_SIZE as int, e)
}

/// The write got as far as a chunk that could not be read: everything before
/// that chunk is written, and nothing of it or behind it.
pub open spec fn write_failed(
    before: DiskView,
    after: DiskView,
    window: Seq<FlatReply>,
    flat: Seq<u8>,
    offset: int,
    data: Seq<u8>,
    e: BackendError,
) -> bool {
    exists|mid: DiskView, pos: int|
        stopped_at(before, window, offset, data.len() as int, pos, e) && #[trigger] written(
            before,
            mid,
            flat,
            offset,
            data.take(pos),
        ) && chunk_missed(mid, after, flat, (offset + pos) / CHUNK_SIZE as int)
}

/// The first `n` bytes of `buf` are the bytes of the disk from `offset` on. Of a
/// chunk that is disturbed by keeping the ones before it in the store, this is
/// not said.
pub open spec fn filled(v: DiskView, flat: Seq<u8>, offset: int, buf: Seq<u8>, n: int) -> bool {
    forall|i: int|
        #![trigger buf[i]]
        0 <= i < n && undisturbed(
            v,
            flat,
            offset,
            before_chunk(offset, (offset + i) / CHUNK_SIZE as int),
            (offset + i) / CHUNK_SIZE as int,
        ) ==> buf[i] == v.byte(flat, offset + i)
}

/// Where they are in unsaved chunks, the first `n` bytes of `buf` are the bytes
/// of the disk from `offset` on.
pub open spec fn unsaved_filled(v: DiskView, offset: int, buf: Seq<u8>, n: int) -> bool {
    forall|i: int|
        #![trigger buf[i]]
        0 <= i < n && v.dirty.contains_key((offset + i) / CHUNK_SIZE as int) ==> buf[i]
            == byte_or_zero(
            v.dirty[(offset + i) / CHUNK_SIZE as int],
            (offset + i) % CHUNK_SIZE as int,
        )
}

/// The read got as far as a chunk that could not be read: everything before that
/// chunk is in the buffer, and the rest of the buffer is as it was.
pub open spec fn read_failed(
    before: DiskView,
    after: DiskView,
    window: Seq<FlatReply>,
    flat: Seq<u8>,
    offset: int,
    old_buf: Seq<u8>,
    buf: Seq<u8>,
    e: BackendError,
) -> bool {
    exists|mid: DiskView, pos: int|
        {
            &&& stopped_at(before, window, offset, buf.len() as int, pos, e)
            &&& #[trigger] ingested(before, mid, flat, offset, pos)
            &&& chunk_missed(mid, after, flat, (offset + pos) / CHUNK_SIZE as int)
            &&& filled(before, flat, offset, buf, pos)
            &&& buf.skip(pos) == old_buf.skip(pos)
        }
}

/// A write that failed has put the data before the failing chunk in place, and
/// the unsaved chunks from there on are as they were.
pub proof fn law_failed_write_keeps_its_part(
    before: DiskView,
    after: DiskView,
    window: Seq<FlatReply>,
    flat: Seq<u8>,
    offset: int,
    data: Seq<u8>,
    pos: int,
    e: BackendError,
)
    requires
        0 <= offset,
        stopped_at(before, window, offset, data.len() as int, pos, e),
        overwritten(before, after, offset, data.take(pos)),
    ensures
        after.bytes(flat, offset, pos as nat) == data.take(pos),
        forall|k: int|
            #![trigger after.dirty.contains_key(k)]
            k >= (offset + pos) / CHUNK_SIZE as int || k < offset / CHUNK_SIZE as int ==> {
                &&& after.dirty.contains_key(k) == before.dirty.contains_key(k)
                &&& before.dirty.contains_key(k) ==> after.dirty[k] == before.dirty[k]
            },
{
    law_written_is_read_back(before, after, flat, offset, data.take(pos));
    assert forall|k: int|
        #![trigger after.dirty.contains_key(k)]
        k >= (offset + pos) / CHUNK_SIZE as int || k < offset / CHUNK_SIZE as int implies {
        &&& after.dirty.contains_key(k) == before.dirty.contains_key(k)
        &&& before.dirty.contains_key(k) ==> after.dirty[k] == before.dirty[k]
    } by {
        assert(!touched(offset, pos, k));
        assert(data.take(pos).len() == pos);
    }
}

/// Nothing was ingested yet.
proof fn lemma_ingested_nothing(v: DiskView, flat: Seq<u8>, offset: int)
    requires
        v.layers.len() > 0,
    ensures
        ingested(v, v, flat, offset, 0),
{
    assert(ingested_index(v, flat, offset, 0).hashes =~= v.layers[0].hashes);
    assert(v.layers =~= v.layers.update(0, ingested_index(v, flat, offset, 0)));
}

/// None of the chunks of these bytes comes from a part of the flat file that
/// could not be read.
pub open spec fn answered(v: DiskView, offset: int, len: int, window: Seq<FlatReply>) -> bool {
    forall|i: int|
        0 <= i < window.len() && touched(offset, len, window[i].chunk_idx as int) && v.is_flat(
            window[i].chunk_idx as int,
        ) ==> (#[trigger] window[i]).data is Ok
}

/// The error comes from where the chunk comes from: from the flat file where
/// that could not be read, and from the store where the chunk is kept there or
/// was to be put there.
pub open spec fn blamed(v: DiskView, window: Seq<FlatReply>, idx: int, e: BackendError) -> bool {
    match e {
        BackendError::Flat(x) => v.is_flat(idx) && exists|i: int|
            0 <= i < window.len() && (#[trigger] window[i]).chunk_idx == idx && window[i].data
                == Err::<Vec<u8>, String>(x),
        BackendError::Store(_) => !v.dirty.contains_key(idx) && (v.hash_of(idx)
            != ZERO_CHUNK_HASH@ || v.is_flat(idx) && exists|i: int|
            0 <= i < window.len() && (#[trigger] window[i]).chunk_idx == idx && (
            window[i].data matches Ok(data) && !all_zero(data@))),
    }
}

/// Neither the chunk store nor the flat file can fail the reading of this
/// chunk.
pub open spec fn settled(v: DiskView, window: Seq<FlatReply>, idx: int) -> bool {
    ||| v.dirty.contains_key(idx)
    ||| v.hash_of(idx) == ZERO_CHUNK_HASH@ && (v.is_flat(idx) ==> exists|i: int|
        0 <= i < window.len() && (#[trigger] window[i]).chunk_idx == idx && (
        window[i].data matches Ok(data) && all_zero(data@)))
}

/// A chunk of the flat file is put into the store once: after the chunks of these
/// bytes were ingested, reading them again puts nothing, as far as the index goes.
pub proof fn law_ingested_chunks_are_not_put_again(
    before: DiskView,
    after: DiskView,
    flat: Seq<u8>,
    offset: int,
    len: int,
    window: Seq<FlatReply>,
)
    requires
        0 <= offset,
        before.layers.len() > 0,
        ingested(before, after, flat, offset, len),
        forall|k: int| #[trigger]
            touched(offset, len, k) ==> k < before.layers[0].hashes.len(),
        covers(after, offset, len, window),
        shows(window, flat, after.flat_len),
    ensures
        range_puts(
            after,
            window,
            offset / CHUNK_SIZE as int,
            end_chunk(offset, len),
        ) == Seq::<PutCall>::empty(),
{
    let first = offset / CHUNK_SIZE as int;
    assert forall|k: int| #[trigger] touched(offset, len, k) implies piece_to_put(after, window, k)
        is None by {
        lemma_ingested_hash(before, flat, offset, len, k);
        if after.is_flat(k) {
            assert(has_reply(window, k));
            let reply = reply_for(window, k);
            if before.ingestible(flat, k) {
                lemma_hash_is_not_zero(blake3_hex(piece(flat, k)));
            }
            assert(reply.data matches Ok(data) ==> data@ == piece(flat, k));
        }
    }
    lemma_nothing_to_put(after, window, offset, len, end_chunk(offset, len));
}

/// Where no chunk has anything to be put, no call is made.
proof fn lemma_nothing_to_put(
    v: DiskView,
    window: Seq<FlatReply>,
    offset: int,
    len: int,
    end: int,
)
    requires
        0 <= offset,
        end <= end_chunk(offset, len),
        forall|k: int| #[trigger]
            touched(offset, len, k) ==> piece_to_put(v, window, k) is None,
    ensures
        range_puts(v, window, offset / CHUNK_SIZE as int, end) == Seq::<PutCall>::empty(),
    decreases end - offset / CHUNK_SIZE as int,
{
    if end > offset / CHUNK_SIZE as int {
        assert(touched(offset, len, end - 1));
        lemma_nothing_to_put(v, window, offset, len, end - 1);
        assert(Seq::<PutCall>::empty() + Seq::<PutCall>::empty() =~= Seq::<PutCall>::empty());
    }
}

/// A chunk that was not noted comes from where it came from before.
proof fn lemma_same_source(before: DiskView, now: DiskView, offset: int, len: int, idx: int)
    requires
        before.layers.len() > 0,
        only_noted(before, now, offset, len),
        !touched(offset, len, idx),
    ensures
        now.hash_of(idx) == before.hash_of(idx),
        now.is_flat(idx) == before.is_flat(idx),
        forall|flat: Seq<u8>|
            #![trigger now.ingestible(flat, idx)]
            now.ingestible(flat, idx) == before.ingestible(flat, idx),
{
    assert(now.layers[0].hash_at(idx) == before.layers[0].hash_at(idx));
}

/// Noting one more chunk.
proof fn lemma_only_noted_step(
    before: DiskView,
    now: DiskView,
    next: DiskView,
    offset: int,
    pos: int,
    end: int,
    idx: int,
)
    requires
        only_noted(before, now, offset, pos),
        only_noted(now, next, idx * CHUNK_SIZE, 1),
        forall|k: int| touched(offset, pos, k) ==> #[trigger] touched(offset, end, k),
        touched(offset, end, idx),
    ensures
        only_noted(before, next, offset, end),
{
    assert forall|k: int| !touched(offset, end, k) implies #[trigger] next.layers[0].hash_at(k)
        == before.layers[0].hash_at(k) by {
        assert(!touched(offset, pos, k));
        assert(now.layers[0].hash_at(k) == before.layers[0].hash_at(k));
        assert(!touched(idx * CHUNK_SIZE, 1, k));
    }
}

/// Whatever the unsaved chunks are, a chunk that was noted was noted.
proof fn lemma_noted_with(now: DiskView, next: DiskView, dirty: Map<int, Seq<u8>>, idx: int)
    requires
        only_noted(now, (DiskView { dirty: now.dirty, ..next }), idx * CHUNK_SIZE, 1),
    ensures
        only_noted(
            (DiskView { dirty, ..now }),
            (DiskView { dirty, ..next }),
            idx * CHUNK_SIZE,
            1,
        ),
{
}

/// One more chunk is written.
proof fn lemma_write_step(
    before: DiskView,
    now: DiskView,
    next: DiskView,
    flat: Seq<u8>,
    offset: int,
    data: Seq<u8>,
    pos: int,
    end: int,
    idx: int,
)
    requires
        before.layers.len() > 0,
        0 <= offset,
        0 <= pos < end <= data.len(),
        (offset + pos) % CHUNK_SIZE as int + (end - pos) <= CHUNK_SIZE,
        pos == 0 || (offset + pos) % CHUNK_SIZE as int == 0,
        idx == (offset + pos) / CHUNK_SIZE as int,
        written(before, now, flat, offset, data.take(pos)),
        overwritten(before, next, offset, data.take(end)),
        next.dirty == now.dirty.insert(idx, next.dirty[idx]),
        chunk_kept(now, (DiskView { dirty: now.dirty, ..next }), flat, idx),
        now.is_flat(idx) == before.is_flat(idx),
        next.dirty[idx] == overlay(now.chunk(flat, idx), idx, offset, data.take(end)),
    ensures
        written(before, next, flat, offset, data.take(end)),
{
    let base = DiskView { dirty: before.dirty, ..now };
    let after = DiskView { dirty: before.dirty, ..next };
    lemma_touch_step(offset, pos, end - pos);
    assert(data.take(pos).len() == pos);
    assert(data.take(end).len() == end);
    assert(now.dirty.contains_key(idx) == before.dirty.contains_key(idx));
    assert(before.dirty.contains_key(idx) ==> now.dirty[idx] == before.dirty[idx]);
    lemma_ingest_step(before, base, after, flat, offset, pos, end - pos, idx);
    assert(before_chunk(offset, idx) == pos);
    if undisturbed(before, flat, offset, pos, idx) {
        law_ingestion_keeps_undisturbed_chunks(before, base, flat, offset, pos, idx);
        assert(now.hash_of(idx) == base.hash_of(idx));
        assert(now.chunk(flat, idx) == base.chunk(flat, idx));
    }
    assert forall|k: int|
        touched(offset, end, k) && undisturbed(
            before,
            flat,
            offset,
            before_chunk(offset, k),
            k,
        ) implies #[trigger] next.dirty[k] == overlay(
        before.chunk(flat, k),
        k,
        offset,
        data.take(end),
    ) by {
        if k != idx {
            assert(touched(offset, pos, k));
            assert(now.dirty[k] == overlay(before.chunk(flat, k), k, offset, data.take(pos)));
            lemma_overlay_prefix(before.chunk(flat, k), k, offset, data, pos, end);
        }
    }
}

/// One more chunk is copied to the buffer: what it has of the unsaved chunks.
proof fn lemma_unsaved_step(
    v: DiskView,
    chunk: Seq<u8>,
    offset: int,
    held: Seq<u8>,
    buf: Seq<u8>,
    pos: int,
    n: int,
)
    requires
        0 <= offset,
        0 <= pos,
        0 < n,
        pos + n <= buf.len(),
        (offset + pos) % CHUNK_SIZE as int + n <= CHUNK_SIZE,
        copied_out(held, buf, pos, n, chunk, (offset + pos) % CHUNK_SIZE as int),
        unsaved_filled(v, offset, held, pos),
        v.dirty.contains_key((offset + pos) / CHUNK_SIZE as int) ==> chunk
            == v.dirty[(offset + pos) / CHUNK_SIZE as int],
    ensures
        unsaved_filled(v, offset, buf, pos + n),
{
    assert forall|i: int|
        #![trigger buf[i]]
        0 <= i < pos + n && v.dirty.contains_key(
            (offset + i) / CHUNK_SIZE as int,
        ) implies buf[i] == byte_or_zero(
        v.dirty[(offset + i) / CHUNK_SIZE as int],
        (offset + i) % CHUNK_SIZE as int,
    ) by {
        if i < pos {
            assert(buf[i] == held[i]);
        } else {
            lemma_same_chunk(offset, pos, n, i);
        }
    }
}

/// The bytes up to the end of a chunk are in that chunk.
proof fn lemma_same_chunk(offset: int, pos: int, n: int, i: int)
    requires
        0 <= offset,
        0 <= pos <= i < pos + n,
        (offset + pos) % CHUNK_SIZE as int + n <= CHUNK_SIZE,
    ensures
        (offset + i) / CHUNK_SIZE as int == (offset + pos) / CHUNK_SIZE as int,
        (offset + i) % CHUNK_SIZE as int == (offset + pos) % CHUNK_SIZE as int + i - pos,
{
}

/// One more chunk is copied to the buffer.
proof fn lemma_fill_step(
    before: DiskView,
    now: DiskView,
    flat: Seq<u8>,
    chunk: Seq<u8>,
    offset: int,
    held: Seq<u8>,
    buf: Seq<u8>,
    pos: int,
    n: int,
)
    requires
        before.layers.len() > 0,
        0 <= offset,
        0 <= pos,
        0 < n,
        pos + n <= buf.len(),
        (offset + pos) % CHUNK_SIZE as int + n <= CHUNK_SIZE,
        pos == 0 || (offset + pos) % CHUNK_SIZE as int == 0,
        copied_out(held, buf, pos, n, chunk, (offset + pos) % CHUNK_SIZE as int),
        ingested(before, now, flat, offset, pos),
        filled(before, flat, offset, held, pos),
        chunk == now.chunk(flat, (offset + pos) / CHUNK_SIZE as int),
    ensures
        filled(before, flat, offset, buf, pos + n),
{
    let idx = (offset + pos) / CHUNK_SIZE as int;
    lemma_touch_step(offset, pos, n);
    assert(before_chunk(offset, idx) == pos);
    if undisturbed(before, flat, offset, pos, idx) {
        law_ingestion_keeps_undisturbed_chunks(before, now, flat, offset, pos, idx);
    }
    assert forall|i: int|
        #![trigger buf[i]]
        0 <= i < pos + n && undisturbed(
            before,
            flat,
            offset,
            before_chunk(offset, (offset + i) / CHUNK_SIZE as int),
            (offset + i) / CHUNK_SIZE as int,
        ) implies buf[i] == before.byte(flat, offset + i) by {
        if i < pos {
            assert(buf[i] == held[i]);
        } else {
            lemma_same_chunk(offset, pos, n, i);
        }
    }
}

/// The rest of the buffer is as it was.
proof fn lemma_rest_of_buffer(first: Seq<u8>, held: Seq<u8>, buf: Seq<u8>, pos: int, n: int)
    requires
        0 <= pos,
        0 <= n,
        pos + n <= buf.len(),
        first.len() == held.len() == buf.len(),
        held.skip(pos) == first.skip(pos),
        forall|j: int| pos + n <= j < buf.len() ==> buf[j] == held[j],
    ensures
        buf.skip(pos + n) == first.skip(pos + n),
{
    assert forall|j: int| pos + n <= j < buf.len() implies buf[j] == first[j] by {
        assert(held.skip(pos)[j - pos] == first.skip(pos)[j - pos]);
    }
    assert(buf.skip(pos + n) =~= first.skip(pos + n));
}

} // verus!
