//! What the calls on a disk promise together: what a read gives of a write, of the
//! flat file and of a checkpoint.

use vstd::prelude::*;

verus! {

use crate::store::backend::{
    chunk_or_zeros, chunk_puts, end_chunk, failed_puts, fits_read, has_reply,
    law_failed_write_keeps_its_part, note_put, range_puts, reply_for, settled, shows, stopped_at,
    unsaved_filled, BackendError, CasBackend, FlatFileBackend, FlatRead, FlatReply,
};
use crate::store::chunk::{blake3_hex, same_elsewhere, ChunkStore, PutCall};
use crate::store::disk::{
    all_zero, before_chunk, exact, law_extending_keeps_the_disk, law_ingestion_is_invisible,
    layered_hash, lemma_hash_is_not_zero, lemma_no_hash, lemma_stable_is_undisturbed, piece,
    piece_len, touched, undisturbed, DiskView,
};
use crate::store::flush::{
    flushable, flushed_index, flushed_part, law_flush_keeps_the_disk, law_written_survives_a_flush,
    lemma_flushed_hash, with_paths_of,
};
use crate::store::index::{
    kept_path, law_load_inverts_save, measurable, ChunkIndex, IndexError, IndexView, CHUNK_SIZE,
    ZERO_CHUNK_HASH,
};
use crate::store::server::{CheckpointError, NbdHandle};
use crate::store::write::{law_write_changes_nothing_else, law_written_is_read_back, overwritten};
use crate::text::text_of;

/// What the flat file has of a chunk.
pub open spec fn slice_of(flat: Seq<u8>, k: int) -> Seq<u8> {
    flat.subrange(
        k * 65536,
        if (k + 1) * 65536 <= flat.len() {
            (k + 1) * 65536
        } else {
            flat.len() as int
        },
    )
}

/// The replies are what a flat file with these bytes gives.
pub open spec fn replies_are_from(window: Seq<FlatReply>, flat: Seq<u8>) -> bool {
    forall|i: int|
        0 <= i < window.len() && (#[trigger] window[i]).data is Ok ==> window[i].data->Ok_0@
            == slice_of(flat, window[i].chunk_idx as int)
}

/// The hashes tell the chunks of this disk apart. They are sixty-four characters
/// long; under the hash of a part of the flat file the store has that part or
/// nothing; parts with the same hash are the same; and what the indexes name is there.
pub open spec fn told_apart(v: DiskView, flat: Seq<u8>) -> bool {
    &&& forall|i: int|
        0 <= i && i * 65536 < flat.len() ==> (#[trigger] blake3_hex(slice_of(flat, i))).len() == 64
    &&& forall|i: int|
        0 <= i && i * 65536 < flat.len() && v.contents.contains_key(
            #[trigger] blake3_hex(slice_of(flat, i)),
        ) ==> v.contents[blake3_hex(slice_of(flat, i))] == slice_of(flat, i)
    &&& forall|i: int, j: int|
        0 <= i && i * 65536 < flat.len() && 0 <= j && j * 65536 < flat.len()
            && #[trigger] blake3_hex(slice_of(flat, i)) == #[trigger] blake3_hex(
            slice_of(flat, j),
        ) ==> slice_of(flat, i) == slice_of(flat, j)
    &&& forall|m: int, k: int|
        0 <= m < v.layers.len() && 0 <= k < v.layers[m].hashes.len() && (
        #[trigger] v.layers[m].hashes[k]) != "ZERO"@ ==> v.contents.contains_key(
            v.layers[m].hashes[k],
        )
}

/// A part of the flat file, said in two ways.
proof fn lemma_slice_is_piece(flat: Seq<u8>, k: int)
    requires
        0 <= k,
        k * 65536 < flat.len(),
    ensures
        slice_of(flat, k) == piece(flat, k),
        slice_of(flat, k).len() == piece_len(flat.len(), k),
{
    assert(slice_of(flat, k) =~= piece(flat, k));
}

/// A hash that is found in the layers stands in one of them.
proof fn lemma_hash_is_in_a_layer(layers: Seq<IndexView>, k: int) -> (m: int)
    requires
        layered_hash(layers, k) != ZERO_CHUNK_HASH@,
    ensures
        0 <= m < layers.len(),
        0 <= k < layers[m].hashes.len(),
        layers[m].hashes[k] == layered_hash(layers, k),
    decreases layers.len(),
{
    if layers[0].hash_at(k) != ZERO_CHUNK_HASH@ {
        0
    } else {
        let m = lemma_hash_is_in_a_layer(layers.drop_first(), k);
        m + 1
    }
}

/// A disk whose chunks are told apart is stable.
proof fn lemma_told_apart_is_stable(v: DiskView, flat: Seq<u8>)
    requires
        v.flat_len == flat.len(),
        told_apart(v, flat),
    ensures
        v.stable(flat),
{
    assert forall|i: int|
        #[trigger] v.ingestible(flat, i) && v.contents.contains_key(
            blake3_hex(piece(flat, i)),
        ) implies v.contents[blake3_hex(piece(flat, i))] == piece(flat, i) by {
        lemma_slice_is_piece(flat, i);
        assert(v.contents.contains_key(blake3_hex(slice_of(flat, i))));
    }
    assert forall|i: int, j: int|
        #[trigger] v.ingestible(flat, i) && #[trigger] v.ingestible(flat, j) && blake3_hex(
            piece(flat, i),
        ) == blake3_hex(piece(flat, j)) implies piece(flat, i) == piece(flat, j) by {
        lemma_slice_is_piece(flat, i);
        lemma_slice_is_piece(flat, j);
        assert(blake3_hex(slice_of(flat, i)) == blake3_hex(slice_of(flat, j)));
    }
    assert forall|i: int, k: int|
        #[trigger] v.ingestible(flat, i) && !v.dirty.contains_key(k) && #[trigger] v.hash_of(k)
            == blake3_hex(piece(flat, i)) implies v.contents.contains_key(
        blake3_hex(piece(flat, i)),
    ) by {
        lemma_slice_is_piece(flat, i);
        assert(blake3_hex(slice_of(flat, i)).len() == 64);
        lemma_hash_is_not_zero(blake3_hex(piece(flat, i)));
        let m = lemma_hash_is_in_a_layer(v.layers, k);
        assert(v.layers[m].hashes[k] == v.hash_of(k));
    }
}

/// Replies from a flat file show it.
proof fn lemma_replies_show(window: Seq<FlatReply>, flat: Seq<u8>)
    requires
        replies_are_from(window, flat),
        forall|i: int|
            0 <= i < window.len() && (#[trigger] window[i]).data is Ok ==> window[i].chunk_idx
                * 65536 < flat.len(),
    ensures
        shows(window, flat, flat.len()),
{
    assert forall|i: int| 0 <= i < window.len() && (#[trigger] window[i]).data is Ok implies
        window[i].data->Ok_0@ == piece(flat, window[i].chunk_idx as int) by {
        lemma_slice_is_piece(flat, window[i].chunk_idx as int);
    }
}

/// A read gives the bytes of the disk: every byte of the buffer is the byte of the
/// disk at its place, and the count is that of the buffer. And it changes none.
pub proof fn law_read_gives_the_disk<S: ChunkStore>(
    d: &mut CasBackend<S>,
    offset: u64,
    buf: &mut [u8],
    window: &Vec<FlatReply>,
    r: Result<usize, BackendError>,
    flat: Seq<u8>,
    i: int,
    o: int,
)
    requires
        call_ensures(CasBackend::<S>::read, (d, offset, buf, window), r),
        old(d)@.layers.len() > 0,
        old(d)@.flat_len == flat.len(),
        replies_are_from(window@, flat),
        forall|i: int|
            0 <= i < window@.len() && (#[trigger] window@[i]).data is Ok ==> window@[i].chunk_idx
                * 65536 < flat.len(),
        told_apart(old(d)@, flat),
    ensures
        final(buf)@.len() == old(buf)@.len(),
        r matches Ok(n) ==> {
            &&& n == old(buf)@.len()
            &&& 0 <= i < n ==> final(buf)@[i] == old(d)@.byte(flat, offset + i)
            &&& 0 <= o ==> final(d)@.byte(flat, o) == old(d)@.byte(flat, o)
        },
{
    let v = old(d)@;
    lemma_replies_show(window@, flat);
    lemma_told_apart_is_stable(v, flat);
    if r is Ok {
        let len = old(buf)@.len() as int;
        assert forall|k: int| #[trigger] touched(offset as int, len, k) implies undisturbed(
            v,
            flat,
            offset as int,
            before_chunk(offset as int, k),
            k,
        ) by {
            lemma_stable_is_undisturbed(v, flat, offset as int, before_chunk(offset as int, k), k);
        }
        assert(exact(v, flat, offset as int, len));
        law_ingestion_is_invisible(v, final(d)@, flat, offset as int, len);
        if 0 <= i < len {
            assert(v.bytes(flat, offset as int, old(buf)@.len())[i] == v.byte(flat, offset + i));
        }
        if 0 <= o {
            let k = o / CHUNK_SIZE as int;
            assert(v.chunk(flat, k) == final(d)@.chunk(flat, k));
        }
    }
}

/// Bytes that come from one chunk are read as they are, whatever the hashes do.
pub proof fn law_one_chunk_is_read<S: ChunkStore>(
    d: &mut CasBackend<S>,
    offset: u64,
    buf: &mut [u8],
    window: &Vec<FlatReply>,
    r: Result<usize, BackendError>,
    flat: Seq<u8>,
    i: int,
)
    requires
        call_ensures(CasBackend::<S>::read, (d, offset, buf, window), r),
        old(d)@.flat_len == flat.len(),
        replies_are_from(window@, flat),
        forall|i: int|
            0 <= i < window@.len() && (#[trigger] window@[i]).data is Ok ==> window@[i].chunk_idx
                * 65536 < flat.len(),
        0 <= i < old(buf)@.len(),
        (offset + i) / 65536 == offset as int / 65536,
        r is Ok,
    ensures
        final(buf)@[i] == old(d)@.byte(flat, offset + i),
{
    lemma_replies_show(window@, flat);
    let k = offset as int / 65536;
    assert(before_chunk(offset as int, k) == 0);
    assert(undisturbed(old(d)@, flat, offset as int, 0, k));
    assert(final(buf)@[i] == final(buf)@[i]);
}

/// What was written is read, and until then every other byte of the disk is as it was.
pub proof fn law_written_is_read<S: ChunkStore>(
    d: &mut CasBackend<S>,
    offset: u64,
    data: &[u8],
    window: &Vec<FlatReply>,
    r: Result<usize, BackendError>,
    later: &mut CasBackend<S>,
    buf: &mut [u8],
    replies: &Vec<FlatReply>,
    q: Result<usize, BackendError>,
    flat: Seq<u8>,
    o: int,
)
    requires
        call_ensures(CasBackend::<S>::write, (d, offset, data, window), r),
        *old(later) == *final(d),
        old(buf)@.len() == data@.len(),
        call_ensures(CasBackend::<S>::read, (later, offset, buf, replies), q),
        old(d)@.layers.len() > 0,
        old(d)@.flat_len == flat.len(),
    ensures
        r matches Ok(n) ==> n == data@.len(),
        r is Ok && q is Ok ==> final(buf)@ == data@,
        r is Ok && told_apart(old(d)@, flat) && replies_are_from(window@, flat) && (forall|i: int|
            0 <= i < window@.len() && (#[trigger] window@[i]).data is Ok ==> window@[i].chunk_idx
                * 65536 < flat.len()) && 0 <= o && !(offset <= o < offset + data@.len())
            ==> final(d)@.byte(flat, o) == old(d)@.byte(flat, o),
{
    if r is Ok {
        law_written_is_read_back(old(d)@, final(d)@, flat, offset as int, data@);
        if q is Ok {
            let v = final(d)@;
            assert forall|i: int| 0 <= i < data@.len() implies final(buf)@[i] == data@[i] by {
                let o = offset + i;
                assert(v.bytes(flat, offset as int, data@.len())[i] == v.byte(flat, o));
                assert(v.dirty.contains_key(o / CHUNK_SIZE as int));
                assert(final(buf)@[i] == final(buf)@[i]);
            }
            assert(final(buf)@ =~= data@);
        }
        if told_apart(old(d)@, flat) && replies_are_from(window@, flat) && (forall|i: int|
            0 <= i < window@.len() && (#[trigger] window@[i]).data is Ok ==> window@[i].chunk_idx
                * 65536 < flat.len()) {
            lemma_replies_show(window@, flat);
            lemma_told_apart_is_stable(old(d)@, flat);
            law_write_changes_nothing_else(old(d)@, final(d)@, flat, offset as int, data@);
        }
    }
}

/// A flush keeps every unsaved chunk in the store and names it in the index by its
/// hash; nothing is unsaved after it, and the other entries of the index are as they
/// were.
pub proof fn law_flushed_chunks_are_kept<S: ChunkStore>(
    d: &mut CasBackend<S>,
    r: Result<(), BackendError>,
    k: int,
)
    requires
        call_ensures(CasBackend::<S>::flush, (d,), r),
        old(d)@.layers.len() > 0,
        0 <= k < old(d)@.layers[0].hashes.len(),
    ensures
        final(d)@.dirty.dom() == Set::<int>::empty(),
        r is Ok ==> {
            let (was, now) = (old(d)@, final(d)@);
            &&& now.layers.len() == was.layers.len()
            &&& now.layers[0].hashes.len() == was.layers[0].hashes.len()
            &&& now.layers[0].disk_size == was.layers[0].disk_size
            &&& was.dirty.contains_key(k) ==> {
                &&& now.layers[0].hashes[k] == blake3_hex(was.dirty[k])
                &&& now.contents.contains_key(blake3_hex(was.dirty[k]))
            }
            &&& !was.dirty.contains_key(k) ==> now.layers[0].hashes[k] == was.layers[0].hashes[k]
        },
        r matches Err(e) ==> e is Store && old(d)@.dirty.dom() != Set::<int>::empty(),
{
    assert(final(d)@.dirty.dom() =~= Set::<int>::empty());
    if r is Ok && old(d)@.dirty.contains_key(k) {
        assert(old(d)@.dirty.dom().contains(k));
    }
    if r is Err {
        let (was, now) = (old(d)@, final(d)@);
        let (mid, done, j) = choose|mid: DiskView, done: Set<int>, j: int|
            {
                &&& #[trigger] flushed_part(was, mid, done)
                &&& was.dirty.contains_key(j)
                &&& !#[trigger] done.contains(j)
                &&& now.layers == mid.layers
                &&& now.flat_len == mid.flat_len
                &&& same_elsewhere(mid.contents, now.contents, was.dirty[j])
            };
        assert(was.dirty.dom().contains(j));
    }
}

/// What was written is read after a flush too: from the store now, where its chunks
/// are told apart from what is there.
pub proof fn law_flushed_is_read<S: ChunkStore>(
    d: &mut CasBackend<S>,
    offset: u64,
    data: &[u8],
    window: &Vec<FlatReply>,
    r: Result<usize, BackendError>,
    between: &mut CasBackend<S>,
    f: Result<(), BackendError>,
    later: &mut CasBackend<S>,
    buf: &mut [u8],
    replies: &Vec<FlatReply>,
    q: Result<usize, BackendError>,
    flat: Seq<u8>,
)
    requires
        call_ensures(CasBackend::<S>::write, (d, offset, data, window), r),
        *old(between) == *final(d),
        call_ensures(CasBackend::<S>::flush, (between,), f),
        *old(later) == *final(between),
        old(buf)@.len() == data@.len(),
        call_ensures(CasBackend::<S>::read, (later, offset, buf, replies), q),
        r is Ok && f is Ok && q is Ok,
        old(d)@.layers.len() > 0,
        old(d)@.flat_len == flat.len(),
        replies@.len() == 0,
        offset + data@.len() <= old(d)@.layers[0].hashes.len() * 65536,
        unsaved_told_apart(final(d)@),
    ensures
        final(buf)@ == data@,
{
    let (v, w) = (final(d)@, final(between)@);
    lemma_unsaved_told_apart_is_flushable(v);
    law_written_survives_a_flush(old(d)@, v, w, flat, offset as int, data@);
    assert(shows(replies@, flat, flat.len()));
    let len = data@.len() as int;
    assert forall|k: int| #[trigger] touched(offset as int, len, k) implies undisturbed(
        w,
        flat,
        offset as int,
        before_chunk(offset as int, k),
        k,
    ) by {
        assert forall|j: int|
            touched(offset as int, before_chunk(offset as int, k), j) implies !#[trigger] w.ingestible(
            flat,
            j,
        ) by {
            assert(touched(offset as int, len, j));
            assert(v.dirty.contains_key(j));
            assert(v.dirty.dom().contains(j));
            lemma_flushed_hash(v, w, v.dirty.dom(), j);
            lemma_hash_is_not_zero(blake3_hex(v.dirty[j]));
        }
    }
    assert(exact(w, flat, offset as int, len));
    assert(final(buf)@ =~= data@);
}

/// The unsaved chunks are told apart by their hashes from each other and from what is
/// in the store, and what the indexes name is there.
pub open spec fn unsaved_told_apart(v: DiskView) -> bool {
    &&& forall|i: int| #[trigger]
        v.dirty.contains_key(i) && v.contents.contains_key(blake3_hex(v.dirty[i]))
            ==> v.contents[blake3_hex(v.dirty[i])] == v.dirty[i]
    &&& forall|i: int, j: int|
        #[trigger] v.dirty.contains_key(i) && #[trigger] v.dirty.contains_key(j) && blake3_hex(
            v.dirty[i],
        ) == blake3_hex(v.dirty[j]) ==> v.dirty[i] == v.dirty[j]
    &&& forall|i: int| #[trigger] v.dirty.contains_key(i) ==> blake3_hex(v.dirty[i]).len() == 64
    &&& forall|m: int, k: int|
        0 <= m < v.layers.len() && 0 <= k < v.layers[m].hashes.len() && (
        #[trigger] v.layers[m].hashes[k]) != "ZERO"@ ==> v.contents.contains_key(
            v.layers[m].hashes[k],
        )
}

/// Unsaved chunks that are told apart can be flushed.
proof fn lemma_unsaved_told_apart_is_flushable(v: DiskView)
    requires
        unsaved_told_apart(v),
    ensures
        flushable(v),
{
    assert forall|i: int, k: int|
        #[trigger] v.dirty.contains_key(i) && !v.dirty.contains_key(k) && #[trigger] v.hash_of(k)
            == blake3_hex(v.dirty[i]) implies v.contents.contains_key(blake3_hex(v.dirty[i])) by {
        lemma_hash_is_not_zero(blake3_hex(v.dirty[i]));
        let m = lemma_hash_is_in_a_layer(v.layers, k);
        assert(v.layers[m].hashes[k] == v.hash_of(k));
    }
}

/// A flush changes no byte of the disk that its index covers.
pub proof fn law_flush_changes_no_byte<S: ChunkStore>(
    d: &mut CasBackend<S>,
    r: Result<(), BackendError>,
    flat: Seq<u8>,
    o: int,
)
    requires
        call_ensures(CasBackend::<S>::flush, (d,), r),
        r is Ok,
        old(d)@.layers.len() > 0,
        unsaved_told_apart(old(d)@),
        0 <= o,
        o < old(d)@.layers[0].hashes.len() * 65536 || !old(d)@.dirty.contains_key(o / 65536),
    ensures
        final(d)@.byte(flat, o) == old(d)@.byte(flat, o),
{
    lemma_unsaved_told_apart_is_flushable(old(d)@);
    law_flush_keeps_the_disk(old(d)@, final(d)@, flat);
    let k = o / CHUNK_SIZE as int;
    assert(final(d)@.chunk(flat, k) == old(d)@.chunk(flat, k));
}

/// A checkpoint is an index file that names, for every unsaved chunk, its hash, and
/// for every other chunk what the disk's own index named. It has the size of the disk,
/// and its parent is the index that the disk was opened from.
pub proof fn law_what_a_checkpoint_holds<S: ChunkStore>(
    d: &mut CasBackend<S>,
    r: Result<Vec<u8>, BackendError>,
    bytes: &[u8],
    q: Result<ChunkIndex, IndexError>,
    k: usize,
    hash: Option<&str>,
    source: Option<String>,
    parent: Option<String>,
    size: u64,
    told: u64,
)
    requires
        call_ensures(CasBackend::<S>::source_index_path, (old(d),), source),
        call_ensures(CasBackend::<S>::size, (old(d),), size),
        call_ensures(CasBackend::<S>::save_index, (d,), r),
        r matches Ok(saved) ==> saved@ == bytes@,
        call_ensures(ChunkIndex::load, (bytes,), q),
        q matches Ok(index) ==> {
            &&& call_ensures(ChunkIndex::get_hash, (&index, k), hash)
            &&& call_ensures(ChunkIndex::parent_path, (&index,), parent)
            &&& call_ensures(ChunkIndex::disk_size, (&index,), told)
        },
        old(d)@.layers.len() > 0,
        r is Ok,
        measurable(final(d)@.layers[0]),
    ensures
        q is Ok,
        told == size,
        hash is Some <==> k < old(d)@.layers[0].hashes.len(),
        hash matches Some(h) ==> h@ == if old(d)@.dirty.contains_key(k as int) {
            blake3_hex(old(d)@.dirty[k as int])
        } else {
            old(d)@.layers[0].hashes[k as int]
        },
        match source {
            Some(p) => if p@.len() > 0 {
                parent matches Some(x) && x@ == p@
            } else {
                parent is None
            },
            None => parent is None,
        },
{
    let (was, now) = (old(d)@, final(d)@);
    law_load_inverts_save(now.layers[0]);
    let mid = with_paths_of(now, was);
    assert(mid.layers[0].hashes == now.layers[0].hashes);
    assert(mid.layers == was.layers.update(0, flushed_index(was, was.dirty.dom())));
    assert(mid.layers[0] == flushed_index(was, was.dirty.dom()));
    assert(text_of(parent) == kept_path(text_of(source)));
    assert(was.dirty.dom().contains(k as int) == was.dirty.contains_key(k as int));
}

/// The size of a disk is the larger of what it was and what it was asked to be, and
/// extending it changes no byte.
pub proof fn law_disks_only_grow<S: ChunkStore>(
    d: &mut CasBackend<S>,
    wanted: u64,
    before: u64,
    after: u64,
    flat: Seq<u8>,
    o: int,
)
    requires
        old(d)@.layers.len() > 0,
        call_ensures(CasBackend::<S>::size, (old(d),), before),
        call_ensures(CasBackend::<S>::set_disk_size, (d, wanted), ()),
        call_ensures(CasBackend::<S>::size, (final(d),), after),
    ensures
        after >= before && after >= wanted,
        after == before || after == wanted,
        final(d).puts() == old(d).puts(),
        0 <= o ==> final(d)@.byte(flat, o) == old(d)@.byte(flat, o),
{
    law_extending_keeps_the_disk(old(d)@, final(d)@, wanted as nat, flat);
    if 0 <= o {
        let k = o / CHUNK_SIZE as int;
        assert(old(d)@.chunk(flat, k) == final(d)@.chunk(flat, k));
    }
}

/// The reads that an operation needs: for each of its chunks that comes from the flat
/// file there is one, of what the flat file has of that chunk, and there is no other.
pub proof fn law_what_is_to_be_read<S: ChunkStore>(
    d: &CasBackend<S>,
    offset: u64,
    len: usize,
    reads: Vec<FlatRead>,
    i: int,
    k: int,
)
    requires
        call_ensures(CasBackend::<S>::flat_reads, (d, offset, len), reads),
    ensures
        0 <= i < reads@.len() ==> {
            let (c, flat_len) = (reads@[i].chunk_idx as int, d@.flat_len as int);
            &&& len > 0 && offset as int / 65536 <= c <= (offset + len - 1) / 65536
            &&& reads@[i].offset == c * 65536
            &&& reads@[i].offset < flat_len
            &&& reads@[i].offset + reads@[i].len == if (c + 1) * 65536 <= flat_len {
                (c + 1) * 65536
            } else {
                flat_len
            }
            &&& !d@.dirty.contains_key(c)
            &&& i + 1 < reads@.len() ==> c < reads@[i + 1].chunk_idx
        },
        len > 0 && offset as int / 65536 <= k <= (offset + len - 1) / 65536 && k * 65536
            < d@.flat_len && !d@.dirty.contains_key(k) && (forall|m: int|
            0 <= m < d@.layers.len() ==> k >= (#[trigger] d@.layers[m]).hashes.len()
                || d@.layers[m].hashes[k] == "ZERO"@) ==> exists|j: int|
            0 <= j < reads@.len() && (#[trigger] reads@[j]).chunk_idx == k,
        forall|m: int|
            0 <= i < reads@.len() && 0 <= m < d@.layers.len() ==> reads@[i].chunk_idx >= (
            #[trigger] d@.layers[m]).hashes.len() || d@.layers[m].hashes[reads@[i].chunk_idx as int]
                == "ZERO"@,
{
    if 0 <= i < reads@.len() {
        assert(fits_read(d@, offset as int, len as int, reads@[i]));
        if i + 1 < reads@.len() {
            assert(reads@[i].chunk_idx < reads@[i + 1].chunk_idx);
        }
        lemma_silent_layers(d@.layers, reads@[i].chunk_idx as int);
    }
    if forall|m: int|
        0 <= m < d@.layers.len() ==> k >= (#[trigger] d@.layers[m]).hashes.len()
            || d@.layers[m].hashes[k] == "ZERO"@ {
        if len > 0 && offset as int / 65536 <= k {
            lemma_no_hash(d@.layers, k);
            if k * 65536 < d@.flat_len && !d@.dirty.contains_key(k) && k <= (offset + len - 1)
                / 65536 {
                assert(d@.is_flat(k));
                assert(touched(offset as int, len as int, k));
            }
        }
    }
}

/// Where no hash is found, no layer has one.
proof fn lemma_silent_layers(layers: Seq<IndexView>, k: int)
    requires
        0 <= k,
        layered_hash(layers, k) == ZERO_CHUNK_HASH@,
    ensures
        forall|m: int|
            0 <= m < layers.len() ==> k >= (#[trigger] layers[m]).hashes.len()
                || layers[m].hashes[k] == ZERO_CHUNK_HASH@,
    decreases layers.len(),
{
    if layers.len() > 0 {
        let rest = layers.drop_first();
        lemma_silent_layers(rest, k);
        assert forall|m: int| 0 <= m < layers.len() implies k >= (
        #[trigger] layers[m]).hashes.len() || layers[m].hashes[k] == ZERO_CHUNK_HASH@ by {
            if m > 0 {
                assert(rest[m - 1] == layers[m]);
            }
        }
    }
}

/// Where a read or a write goes well and where it does not. It goes well where each of
/// its chunks is unsaved, or is nowhere, or is zeros in the flat file. An error of the
/// flat file is that of a reply for one of its chunks, and where it went well there
/// was none.
pub proof fn law_what_fails_a_read<S: ChunkStore>(
    d: &mut CasBackend<S>,
    offset: u64,
    buf: &mut [u8],
    window: &Vec<FlatReply>,
    r: Result<usize, BackendError>,
)
    requires
        call_ensures(CasBackend::<S>::read, (d, offset, buf, window), r),
    ensures
        (forall|k: int| #[trigger]
            touched(offset as int, old(buf)@.len() as int, k) ==> cannot_fail(
                old(d)@,
                window@,
                k,
            )) ==> r is Ok,
        r matches Err(BackendError::Flat(e)) ==> exists|i: int|
            0 <= i < window@.len() && (#[trigger] window@[i]).data == Err::<Vec<u8>, String>(e)
                && touched(offset as int, old(buf)@.len() as int, window@[i].chunk_idx as int),
        r is Ok ==> forall|i: int|
            0 <= i < window@.len() && touched(
                offset as int,
                old(buf)@.len() as int,
                window@[i].chunk_idx as int,
            ) && comes_from_the_flat_file(old(d)@, window@[i].chunk_idx as int) ==> (
            #[trigger] window@[i]).data is Ok,
{
    let (v, len) = (old(d)@, old(buf)@.len() as int);
    lemma_what_fails(v, window@, offset as int, len);
    match r {
        Ok(_) => {
            assert forall|i: int|
                0 <= i < window@.len() && touched(offset as int, len, window@[i].chunk_idx as int)
                    && comes_from_the_flat_file(v, window@[i].chunk_idx as int) implies (
            #[trigger] window@[i]).data is Ok by {
                lemma_no_hash(v.layers, window@[i].chunk_idx as int);
                assert(v.is_flat(window@[i].chunk_idx as int));
            }
        },
        Err(e) => {
            let pos = choose|pos: int| #[trigger]
                stopped_at(v, window@, offset as int, len, pos, e);
            assert(touched(offset as int, len, (offset + pos) / CHUNK_SIZE as int));
        },
    }
}

/// The same of a write.
pub proof fn law_what_fails_a_write<S: ChunkStore>(
    d: &mut CasBackend<S>,
    offset: u64,
    data: &[u8],
    window: &Vec<FlatReply>,
    r: Result<usize, BackendError>,
)
    requires
        call_ensures(CasBackend::<S>::write, (d, offset, data, window), r),
    ensures
        (forall|k: int| #[trigger]
            touched(offset as int, data@.len() as int, k) ==> cannot_fail(old(d)@, window@, k))
            ==> r is Ok,
        r matches Err(BackendError::Flat(e)) ==> exists|i: int|
            0 <= i < window@.len() && (#[trigger] window@[i]).data == Err::<Vec<u8>, String>(e)
                && touched(offset as int, data@.len() as int, window@[i].chunk_idx as int),
        r is Ok ==> forall|i: int|
            0 <= i < window@.len() && touched(
                offset as int,
                data@.len() as int,
                window@[i].chunk_idx as int,
            ) && comes_from_the_flat_file(old(d)@, window@[i].chunk_idx as int) ==> (
            #[trigger] window@[i]).data is Ok,
{
    let (v, len) = (old(d)@, data@.len() as int);
    lemma_what_fails(v, window@, offset as int, len);
    match r {
        Ok(_) => {
            assert forall|i: int|
                0 <= i < window@.len() && touched(offset as int, len, window@[i].chunk_idx as int)
                    && comes_from_the_flat_file(v, window@[i].chunk_idx as int) implies (
            #[trigger] window@[i]).data is Ok by {
                lemma_no_hash(v.layers, window@[i].chunk_idx as int);
                assert(v.is_flat(window@[i].chunk_idx as int));
            }
        },
        Err(e) => {
            let pos = choose|pos: int| #[trigger]
                stopped_at(v, window@, offset as int, len, pos, e);
            assert(touched(offset as int, len, (offset + pos) / CHUNK_SIZE as int));
        },
    }
}

/// A chunk is not unsaved, has no hash, and is within the flat file.
pub open spec fn comes_from_the_flat_file(v: DiskView, k: int) -> bool {
    &&& !v.dirty.contains_key(k)
    &&& 0 <= k && k * 65536 < v.flat_len
    &&& forall|m: int|
        0 <= m < v.layers.len() ==> k >= (#[trigger] v.layers[m]).hashes.len()
            || v.layers[m].hashes[k] == "ZERO"@
}

/// A chunk is unsaved; or it has no hash, and is not in the flat file or is zeros
/// there.
pub open spec fn cannot_fail(v: DiskView, window: Seq<FlatReply>, k: int) -> bool {
    ||| v.dirty.contains_key(k)
    ||| {
        &&& 0 <= k
        &&& forall|m: int|
            0 <= m < v.layers.len() ==> k >= (#[trigger] v.layers[m]).hashes.len()
                || v.layers[m].hashes[k] == "ZERO"@
        &&& k * 65536 >= v.flat_len || exists|i: int|
            0 <= i < window.len() && (#[trigger] window[i]).chunk_idx == k && (
            window[i].data matches Ok(data) && forall|j: int| 0 <= j < data@.len() ==> data@[j] == 0)
    }
}

/// What cannot fail is settled.
proof fn lemma_what_fails(v: DiskView, window: Seq<FlatReply>, offset: int, len: int)
    ensures
        (forall|k: int| #[trigger] touched(offset, len, k) ==> cannot_fail(v, window, k)) ==> (
        forall|k: int| touched(offset, len, k) ==> #[trigger] settled(v, window, k)),
{
    if forall|k: int| #[trigger] touched(offset, len, k) ==> cannot_fail(v, window, k) {
        assert forall|k: int| touched(offset, len, k) implies #[trigger] settled(v, window, k) by {
            assert(cannot_fail(v, window, k));
            if !v.dirty.contains_key(k) {
                lemma_no_hash(v.layers, k);
                if k * 65536 < v.flat_len {
                    let i = choose|i: int|
                        0 <= i < window.len() && (#[trigger] window[i]).chunk_idx == k && (
                        window[i].data matches Ok(data) && forall|j: int|
                            0 <= j < data@.len() ==> data@[j] == 0);
                    assert(all_zero(window[i].data->Ok_0@));
                }
            }
        }
    }
}

/// What the store's replies come to: a chunk that it has is read as it is, one that it
/// does not have reads as zeros, and its errors are reported. A chunk that was put is
/// named in the index by the hash that came back, and one that was not is not.
pub proof fn law_what_replies_come_to(
    reply: Result<Option<Vec<u8>>, String>,
    r: Result<Vec<u8>, BackendError>,
    index: &mut ChunkIndex,
    k: usize,
    put: Result<String, String>,
    q: Result<(), BackendError>,
    at: usize,
    hashes: (Option<&str>, Option<&str>),
    message: String,
    i: int,
)
    requires
        call_ensures(chunk_or_zeros, (reply,), r),
        call_ensures(note_put, (index, k, put), q),
        call_ensures(ChunkIndex::get_hash, (old(index), at), hashes.0),
        call_ensures(ChunkIndex::get_hash, (final(index), at), hashes.1),
        q matches Err(e) ==> call_ensures(BackendError::message, (&e,), message),
    ensures
        match reply {
            Ok(Some(data)) => r matches Ok(d) && d@ == data@,
            Ok(None) => r matches Ok(d) && d@.len() == 65536 && (0 <= i < 65536 ==> d@[i] == 0),
            Err(e) => r matches Err(BackendError::Store(m)) && m@ == e@,
        },
        q is Ok <==> put is Ok,
        put matches Err(e) ==> message@ == e@,
        hashes.0 is Some <==> hashes.1 is Some,
        hashes.1 matches Some(h) ==> h@ == if at == k && put is Ok {
            put->Ok_0@
        } else {
            hashes.0->Some_0@
        },
{
}

/// A part of the flat file is put into the store once, as it is, when its chunk is
/// read, and a part that is zeros is not.
pub proof fn law_what_is_put<S: ChunkStore>(
    d: &mut CasBackend<S>,
    offset: u64,
    buf: &mut [u8],
    window: &Vec<FlatReply>,
    r: Result<usize, BackendError>,
    i: int,
)
    requires
        call_ensures(CasBackend::<S>::read, (d, offset, buf, window), r),
        r is Ok,
        old(buf)@.len() > 0,
        (offset + old(buf)@.len() - 1) / 65536 == offset as int / 65536,
        0 <= i < window@.len(),
        window@[i].chunk_idx == offset as int / 65536,
        forall|j: int|
            0 <= j < window@.len() && j != i ==> (#[trigger] window@[j]).chunk_idx
                != window@[i].chunk_idx,
        comes_from_the_flat_file(old(d)@, offset as int / 65536),
    ensures
        window@[i].data is Ok,
        ({
            let data = window@[i].data->Ok_0@;
            final(d).puts() == if forall|j: int| 0 <= j < data.len() ==> data[j] == 0 {
                old(d).puts()
            } else {
                old(d).puts().push(PutCall { data, reply: Ok(blake3_hex(data)) })
            }
        }),
{
    let v = old(d)@;
    let k = offset as int / 65536;
    let len = old(buf)@.len() as int;
    lemma_no_hash(v.layers, k);
    assert(v.is_flat(k));
    assert(touched(offset as int, len, k));
    assert(end_chunk(offset as int, len) == k + 1);
    let data = window@[i].data->Ok_0@;
    assert(reply_for(window@, k) == window@[i]);
    assert(window@[i].data is Ok);
    let none = range_puts(v, window@, k, k);
    assert(none =~= Seq::<PutCall>::empty());
    assert(all_zero(data) <==> forall|j: int| 0 <= j < data.len() ==> data[j] == 0);
    let one = chunk_puts(v, window@, k, None);
    assert(range_puts(v, window@, k, k + 1) =~= one);
    if all_zero(data) {
        assert(one =~= Seq::<PutCall>::empty());
        assert(old(d).puts() + one =~= old(d).puts());
    } else {
        let call = PutCall { data, reply: Ok(blake3_hex(data)) };
        assert(one =~= seq![call]);
        assert(old(d).puts() + one =~= old(d).puts().push(call));
    }
}

/// A disk is made of what it is given: its index, the parents in their order, and the
/// flat file, if there is one. Nothing is unsaved.
pub proof fn law_new_disks<S: ChunkStore>(
    store: S,
    index: ChunkIndex,
    parents: Vec<ChunkIndex>,
    flat: FlatFileBackend,
    a: CasBackend<S>,
    b: CasBackend<S>,
    source: Option<String>,
    i: int,
)
    requires
        call_ensures(CasBackend::<S>::new, (store, index, parents), a),
        call_ensures(CasBackend::<S>::with_fallback, (store, index, flat, parents), b),
        call_ensures(CasBackend::<S>::source_index_path, (&a,), source),
    ensures
        a@.layers == b@.layers && a@.layers.len() == parents@.len() + 1,
        a@.layers[0] == index@,
        0 <= i < parents@.len() ==> a@.layers[i + 1] == parents@[i]@,
        a@.flat_len == 0 && b@.flat_len == flat.size,
        a@.contents == store.contents() && b@.contents == store.contents(),
        a.puts() == store.puts() && b.puts() == store.puts(),
        forall|k: int| !(#[trigger] a@.dirty.contains_key(k)) && !b@.dirty.contains_key(k),
        source is None,
{
    assert(text_of(source) is None);
    assert forall|k: int| !(#[trigger] a@.dirty.contains_key(k)) && !b@.dirty.contains_key(k) by {}
}

/// A checkpoint names the flat file that its index named; where that named none, it
/// names the one that the disk was made with, and none where there was none.
pub proof fn law_what_file_a_checkpoint_names<S: ChunkStore>(
    store: S,
    index: ChunkIndex,
    parents: Vec<ChunkIndex>,
    flat: FlatFileBackend,
    own: Option<String>,
    d: &mut CasBackend<S>,
    r: Result<Vec<u8>, BackendError>,
    bytes: &[u8],
    q: Result<ChunkIndex, IndexError>,
    named: Option<String>,
)
    requires
        call_ensures(ChunkIndex::fallback_path, (&index,), own),
        call_ensures(CasBackend::<S>::with_fallback, (store, index, flat, parents), *old(d))
            || call_ensures(CasBackend::<S>::new, (store, index, parents), *old(d)),
        call_ensures(CasBackend::<S>::save_index, (d,), r),
        r matches Ok(saved) ==> saved@ == bytes@,
        call_ensures(ChunkIndex::load, (bytes,), q),
        q matches Ok(loaded) ==> call_ensures(ChunkIndex::fallback_path, (&loaded,), named),
        r is Ok,
        measurable(final(d)@.layers[0]),
    ensures
        q is Ok,
        own is Some && own->Some_0@.len() > 0 ==> (named matches Some(n) && n@ == own->Some_0@),
        own is None && flat.path@.len() > 0 && call_ensures(
            CasBackend::<S>::with_fallback,
            (store, index, flat, parents),
            *old(d),
        ) ==> (named matches Some(n) && n@ == flat.path@),
        own is None && call_ensures(CasBackend::<S>::new, (store, index, parents), *old(d))
            ==> named is None,
{
    law_load_inverts_save(final(d)@.layers[0]);
    assert(text_of(own) == index@.fallback_path);
    assert(text_of(named) == kept_path(final(d)@.layers[0].fallback_path));
    assert(old(d)@.layers[0] == index@);
}

/// The path that a disk's index was loaded from is the one that was set last.
pub proof fn law_set_source_is_told<S: ChunkStore>(
    d: &mut CasBackend<S>,
    path: Option<String>,
    told: Option<String>,
    size: u64,
    same: u64,
)
    requires
        call_ensures(CasBackend::<S>::size, (old(d),), size),
        call_ensures(CasBackend::<S>::set_source_index_path, (d, path), ()),
        call_ensures(CasBackend::<S>::source_index_path, (final(d),), told),
        call_ensures(CasBackend::<S>::size, (final(d),), same),
    ensures
        told is Some <==> path is Some,
        told matches Some(p) ==> p@ == path->Some_0@,
        final(d)@ == old(d)@ && final(d).puts() == old(d).puts(),
        size == same,
{
    assert(text_of(told) == text_of(path));
}

/// A checkpoint that a server is asked for is one of its disk; a server of a flat file
/// says that it has none, and its message is that of the disk where that failed.
pub proof fn law_server_saves_its_disk<S: ChunkStore>(
    h: &mut NbdHandle<S>,
    r: Result<Vec<u8>, CheckpointError>,
    message: String,
    bytes: &[u8],
    q: Result<ChunkIndex, IndexError>,
    k: usize,
    hash: Option<&str>,
)
    requires
        call_ensures(NbdHandle::<S>::save_checkpoint, (h,), r),
        r matches Err(e) ==> call_ensures(CheckpointError::message, (&e,), message),
        r matches Ok(saved) ==> saved@ == bytes@,
        call_ensures(ChunkIndex::load, (bytes,), q),
        q matches Ok(index) ==> call_ensures(ChunkIndex::get_hash, (&index, k), hash),
        old(h).cas_backend matches Some(d) ==> d@.layers.len() > 0,
        final(h).cas_backend matches Some(d) ==> measurable(d@.layers[0]),
    ensures
        final(h).socket_path@ == old(h).socket_path@,
        old(h).cas_backend is None <==> (r matches Err(CheckpointError::NotCas)),
        r matches Err(CheckpointError::NotCas) ==> message@
            == "save_checkpoint requires CAS backend"@,
        r matches Err(CheckpointError::Backend(BackendError::Store(e))) ==> message@ == e@,
        r is Ok ==> q is Ok && {
            let was = old(h).cas_backend->Some_0@;
            &&& hash is Some <==> k < was.layers[0].hashes.len()
            &&& hash matches Some(x) ==> x@ == if was.dirty.contains_key(k as int) {
                blake3_hex(was.dirty[k as int])
            } else {
                was.layers[0].hashes[k as int]
            }
        },
        r is Err && old(h).cas_backend is Some ==> {
            let puts = final(h).cas_backend->Some_0.puts();
            puts.len() > old(h).cas_backend->Some_0.puts().len() && puts.last().reply == Err::<
                Seq<char>,
                Seq<char>,
            >(message@)
        },
{
    if old(h).cas_backend is Some {
        let (was, now) = (old(h).cas_backend->Some_0@, final(h).cas_backend->Some_0@);
        if r is Ok {
            law_load_inverts_save(now.layers[0]);
            let mid = with_paths_of(now, was);
            assert(mid.layers[0].hashes == now.layers[0].hashes);
            assert(mid.layers == was.layers.update(0, flushed_index(was, was.dirty.dom())));
            assert(mid.layers[0] == flushed_index(was, was.dirty.dom()));
            assert(was.dirty.dom().contains(k as int) == was.dirty.contains_key(k as int));
        }
    }
}

/// A server that goes down keeps every unsaved chunk of its disk in the store, unless
/// the store failed on one of them.
pub proof fn law_closing_keeps_the_disk<S: ChunkStore>(h: &mut NbdHandle<S>, k: int)
    requires
        call_ensures(NbdHandle::<S>::close, (h,), ()),
    ensures
        final(h).socket_path@ == old(h).socket_path@,
        old(h).cas_backend is Some <==> final(h).cas_backend is Some,
        old(h).cas_backend is Some ==> {
            let (was, now) = (old(h).cas_backend->Some_0, final(h).cas_backend->Some_0);
            &&& now@.dirty.dom() == Set::<int>::empty()
            &&& was.puts().len() <= now.puts().len()
            &&& (forall|i: int|
                was.puts().len() <= i < now.puts().len() ==> (
                #[trigger] now.puts()[i]).reply is Ok) && was@.dirty.contains_key(k)
                ==> now@.contents.contains_key(blake3_hex(was@.dirty[k]))
        },
{
    if old(h).cas_backend is Some {
        let (was, now) = (old(h).cas_backend->Some_0, final(h).cas_backend->Some_0);
        assert(now@.dirty.dom() =~= Set::<int>::empty());
        if was@.dirty.contains_key(k) {
            assert(was@.dirty.dom().contains(k));
        }
    }
}

/// A read is in order wherever its end is a number that there is, and the flat file
/// was asked for what the disk says that it needs: with one reply to each of those
/// reads, of the length that was asked for or an error, it can be made, and so can a
/// write.
pub proof fn law_replies_to_its_reads_are_enough<S: ChunkStore>(
    d: &mut CasBackend<S>,
    offset: u64,
    buf: &mut [u8],
    data: &[u8],
    len: usize,
    reads: Vec<FlatRead>,
    window: &Vec<FlatReply>,
)
    requires
        offset + len <= u64::MAX,
        (offset + len) / 65536 <= usize::MAX,
        call_ensures(CasBackend::<S>::flat_reads, (old(d), offset, len), reads),
        old(buf)@.len() == len && data@.len() == len,
        window@.len() == reads@.len(),
        forall|i: int|
            0 <= i < reads@.len() ==> (#[trigger] window@[i]).chunk_idx == reads@[i].chunk_idx && (
            window@[i].data matches Ok(bytes) ==> bytes@.len() == reads@[i].len),
    ensures
        call_requires(CasBackend::<S>::flat_reads, (old(d), offset, len)),
        call_requires(CasBackend::<S>::read, (d, offset, buf, window)),
        call_requires(CasBackend::<S>::write, (d, offset, data, window)),
{
    let v = old(d)@;
    assert forall|i: int, j: int| 0 <= i < j < window@.len() implies window@[i].chunk_idx
        != window@[j].chunk_idx by {
        assert(reads@[i].chunk_idx < reads@[j].chunk_idx);
    }
    assert forall|i: int| 0 <= i < window@.len() implies (#[trigger] window@[i]).chunk_idx
        == reads@[i].chunk_idx by {
        assert(fits_read(v, offset as int, len as int, reads@[i]));
    }
    assert forall|idx: int|
        touched(offset as int, len as int, idx) && #[trigger] v.is_flat(idx) implies has_reply(
        window@,
        idx,
    ) by {
        let i = choose|i: int| 0 <= i < reads@.len() && (#[trigger] reads@[i]).chunk_idx == idx;
        assert(window@[i].chunk_idx == idx);
    }
}

/// An operation on `len` bytes at `offset` ended at byte `pos` with `e`: where a chunk
/// starts or the bytes do, at a chunk that is not unsaved. An error of the flat file
/// is the reply for that chunk. An error of the store comes where the chunk has a
/// hash, or where it is in the flat file and not zeros.
pub open spec fn ended_at(
    v: DiskView,
    window: Seq<FlatReply>,
    offset: int,
    len: int,
    pos: int,
    e: BackendError,
) -> bool {
    let k = (offset + pos) / 65536;
    &&& 0 <= pos < len
    &&& pos == 0 || (offset + pos) % 65536 == 0
    &&& !v.dirty.contains_key(k)
    &&& match e {
        BackendError::Flat(x) => comes_from_the_flat_file(v, k) && exists|i: int|
            0 <= i < window.len() && (#[trigger] window[i]).chunk_idx == k && window[i].data
                == Err::<Vec<u8>, String>(x),
        BackendError::Store(_) => has_a_hash(v, k) || comes_from_the_flat_file(v, k)
            && exists|i: int|
            0 <= i < window.len() && (#[trigger] window[i]).chunk_idx == k && (
            window[i].data matches Ok(data) && exists|j: int|
                0 <= j < data@.len() && #[trigger] data@[j] != 0),
    }
}

/// A layer names a hash for a chunk.
pub open spec fn has_a_hash(v: DiskView, k: int) -> bool {
    exists|m: int|
        0 <= m < v.layers.len() && 0 <= k < (#[trigger] v.layers[m]).hashes.len()
            && v.layers[m].hashes[k] != "ZERO"@
}

/// Where an operation stopped it ended.
proof fn lemma_ended_at(
    v: DiskView,
    window: Seq<FlatReply>,
    offset: int,
    len: int,
    pos: int,
    e: BackendError,
)
    requires
        0 <= offset,
        stopped_at(v, window, offset, len, pos, e),
    ensures
        ended_at(v, window, offset, len, pos, e),
{
    let k = (offset + pos) / 65536;
    if v.hash_of(k) != ZERO_CHUNK_HASH@ {
        let m = lemma_hash_is_in_a_layer(v.layers, k);
        assert(v.layers[m].hashes[k] != "ZERO"@);
    } else {
        lemma_silent_layers(v.layers, k);
    }
    if e is Store && v.hash_of(k) == ZERO_CHUNK_HASH@ {
        let i = choose|i: int|
            0 <= i < window.len() && (#[trigger] window[i]).chunk_idx == k && (
            window[i].data matches Ok(data) && !all_zero(data@));
        let data = window[i].data->Ok_0@;
        let j = choose|j: int| 0 <= j < data.len() && data[j] != 0;
        assert(data[j] != 0);
    }
}

/// A read that fails ends at a chunk that could not be had, and leaves the buffer
/// from there on as it was; before that, unsaved chunks are in the buffer. What was
/// put before is in the log.
pub proof fn law_where_a_read_ends<S: ChunkStore>(
    d: &mut CasBackend<S>,
    offset: u64,
    buf: &mut [u8],
    window: &Vec<FlatReply>,
    r: Result<usize, BackendError>,
)
    requires
        call_ensures(CasBackend::<S>::read, (d, offset, buf, window), r),
    ensures
        final(buf)@.len() == old(buf)@.len(),
        r matches Ok(n) ==> n == old(buf)@.len(),
        old(d).puts().len() <= final(d).puts().len(),
        forall|i: int|
            0 <= i < old(d).puts().len() ==> #[trigger] final(d).puts()[i] == old(d).puts()[i],
        r matches Err(e) ==> exists|pos: int|
            {
                &&& #[trigger] ended_at(
                    old(d)@,
                    window@,
                    offset as int,
                    old(buf)@.len() as int,
                    pos,
                    e,
                )
                &&& forall|i: int| pos <= i < old(buf)@.len() ==> final(buf)@[i] == old(buf)@[i]
                &&& forall|i: int|
                    #![trigger final(buf)@[i]]
                    0 <= i < pos && old(d)@.dirty.contains_key((offset + i) / 65536)
                        && (offset + i) % 65536 < old(d)@.dirty[(offset + i) / 65536].len()
                        ==> final(buf)@[i] == old(d)@.dirty[(offset + i) / 65536][(offset + i)
                        % 65536]
            },
{
    let (v, len) = (old(d)@, old(buf)@.len() as int);
    if r is Err {
        let e = r->Err_0;
        let pos = choose|pos: int| #[trigger]
            stopped_at(v, window@, offset as int, len, pos, e) && unsaved_filled(
                v,
                offset as int,
                final(buf)@,
                pos,
            ) && final(buf)@.skip(pos) == old(buf)@.skip(pos) && final(d).puts() == old(d).puts()
                + failed_puts(v, window@, offset as int, pos, e);
        lemma_ended_at(v, window@, offset as int, len, pos, e);
        assert forall|i: int| pos <= i < len implies final(buf)@[i] == old(buf)@[i] by {
            assert(final(buf)@.skip(pos)[i - pos] == old(buf)@.skip(pos)[i - pos]);
        }
    }
}

/// A write that fails ends at a chunk that could not be had: what is before it is
/// written, and the unsaved chunks from there on are as they were.
pub proof fn law_where_a_write_ends<S: ChunkStore>(
    d: &mut CasBackend<S>,
    offset: u64,
    data: &[u8],
    window: &Vec<FlatReply>,
    r: Result<usize, BackendError>,
    flat: Seq<u8>,
)
    requires
        call_ensures(CasBackend::<S>::write, (d, offset, data, window), r),
    ensures
        r matches Ok(n) ==> n == data@.len(),
        old(d).puts().len() <= final(d).puts().len(),
        forall|i: int|
            0 <= i < old(d).puts().len() ==> #[trigger] final(d).puts()[i] == old(d).puts()[i],
        r matches Err(e) ==> exists|pos: int|
            {
                &&& #[trigger] ended_at(
                    old(d)@,
                    window@,
                    offset as int,
                    data@.len() as int,
                    pos,
                    e,
                )
                &&& final(d)@.bytes(flat, offset as int, pos as nat) == data@.take(pos)
                &&& forall|k: int|
                    #![trigger final(d)@.dirty.contains_key(k)]
                    k >= (offset + pos) / 65536 || k < offset as int / 65536 ==> {
                        &&& final(d)@.dirty.contains_key(k) <==> old(d)@.dirty.contains_key(k)
                        &&& old(d)@.dirty.contains_key(k) ==> final(d)@.dirty[k]
                            == old(d)@.dirty[k]
                    }
            },
{
    let (v, len) = (old(d)@, data@.len() as int);
    if r is Err {
        let e = r->Err_0;
        let pos = choose|pos: int| #[trigger]
            stopped_at(v, window@, offset as int, len, pos, e) && overwritten(
                v,
                final(d)@,
                offset as int,
                data@.take(pos),
            ) && final(d).puts() == old(d).puts() + failed_puts(v, window@, offset as int, pos, e);
        lemma_ended_at(v, window@, offset as int, len, pos, e);
        law_failed_write_keeps_its_part(
            v,
            final(d)@,
            window@,
            flat,
            offset as int,
            data@,
            pos,
            e,
        );
    }
}

/// A part of the flat file that the store refuses is the last that was put: an error
/// on the first chunk of a read is the store's reply to it.
pub proof fn law_refused_part_is_reported<S: ChunkStore>(
    d: &mut CasBackend<S>,
    offset: u64,
    buf: &mut [u8],
    window: &Vec<FlatReply>,
    r: Result<usize, BackendError>,
    i: int,
)
    requires
        call_ensures(CasBackend::<S>::read, (d, offset, buf, window), r),
        old(buf)@.len() > 0,
        (offset + old(buf)@.len() - 1) / 65536 == offset as int / 65536,
        0 <= i < window@.len(),
        window@[i].chunk_idx == offset as int / 65536,
        forall|j: int|
            0 <= j < window@.len() && j != i ==> (#[trigger] window@[j]).chunk_idx
                != window@[i].chunk_idx,
        comes_from_the_flat_file(old(d)@, offset as int / 65536),
    ensures
        r matches Err(BackendError::Store(e)) ==> window@[i].data is Ok && final(d).puts() == old(
            d,
        ).puts().push(PutCall { data: window@[i].data->Ok_0@, reply: Err(e@) }),
        r matches Err(BackendError::Flat(_)) ==> window@[i].data is Err && final(d).puts() == old(
            d,
        ).puts(),
{
    let (v, len) = (old(d)@, old(buf)@.len() as int);
    let k = offset as int / 65536;
    if r is Err {
        let e = r->Err_0;
        lemma_no_hash(v.layers, k);
        assert(v.is_flat(k));
        let pos = choose|pos: int| #[trigger]
            stopped_at(v, window@, offset as int, len, pos, e) && unsaved_filled(
                v,
                offset as int,
                final(buf)@,
                pos,
            ) && final(buf)@.skip(pos) == old(buf)@.skip(pos) && final(d).puts() == old(d).puts()
                + failed_puts(v, window@, offset as int, pos, e);
        assert((offset + pos) / 65536 == k);
        assert(reply_for(window@, k) == window@[i]);
        assert(range_puts(v, window@, k, k) =~= Seq::<PutCall>::empty());
        let made = failed_puts(v, window@, offset as int, pos, e);
        if e is Store {
            let call = PutCall {
                data: window@[i].data->Ok_0@,
                reply: Err::<Seq<char>, Seq<char>>(e->Store_0@),
            };
            assert(made =~= seq![call]);
            assert(old(d).puts() + made =~= old(d).puts().push(call));
        } else {
            assert(made =~= Seq::<PutCall>::empty());
            assert(old(d).puts() + made =~= old(d).puts());
        }
    }
}

} // verus!
