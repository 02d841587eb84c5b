//! What a disk goes through between being opened and being saved, and what it
//! keeps meanwhile.

use vstd::prelude::*;

verus! {

use crate::store::backend::{read_failed, write_failed, BackendError, FlatReply};
use crate::store::chunk::same_elsewhere;
use crate::store::disk::{extended, ingested, same_chunks, DiskView};
use crate::store::flush::{
    flush_failed, flushed, flushed_part, law_checkpoint_holds_the_saved_disk,
    law_ingestion_keeps_refinement, layers_below, lemma_flushed_part_refines, refines, saved,
    with_paths_of,
};
use crate::store::index::{
    decode_index, encode_index, measurable, IndexView, CHUNK_SIZE, ZERO_CHUNK_HASH,
};
use crate::store::write::written;

/// One operation on a disk whose flat file holds `flat`: a read or a write, be it
/// whole or cut short by an error, a flush, a save, or an extension.
pub open spec fn operated(before: DiskView, after: DiskView, flat: Seq<u8>) -> bool {
    ||| exists|offset: int, len: int| #[trigger] ingested(before, after, flat, offset, len)
    ||| exists|window: Seq<FlatReply>, offset: int, old_buf: Seq<u8>, buf: Seq<u8>, e: BackendError|
        #[trigger] read_failed(before, after, window, flat, offset, old_buf, buf, e)
    ||| exists|offset: int, data: Seq<u8>| #[trigger] written(before, after, flat, offset, data)
    ||| exists|window: Seq<FlatReply>, offset: int, data: Seq<u8>, e: BackendError| #[trigger]
        write_failed(before, after, window, flat, offset, data, e)
    ||| flushed(before, after)
    ||| flush_failed(before, after)
    ||| exists|source_path: Option<Seq<char>>, flat_path: Option<Seq<char>>| #[trigger]
        saved(before, after, source_path, flat_path)
    ||| exists|new_size: nat| #[trigger] extended(before, after, new_size)
}

/// The disk stands on the index `source` that it was opened from, if there was
/// one, and on the layers `below`: its own index has everything that `source` has.
pub open spec fn stands_on(v: DiskView, source: Option<IndexView>, below: Seq<IndexView>) -> bool {
    &&& v.layers.len() > 0
    &&& v.layers.drop_first() == below
    &&& source matches Some(s) ==> refines(v.layers[0], s)
}

/// Every disk of a history but the first came of an operation on the one before.
pub open spec fn is_history(history: Seq<DiskView>, flat: Seq<u8>) -> bool {
    &&& history.len() > 0
    &&& forall|i: int|
        0 < i < history.len() ==> operated(history[i - 1], #[trigger] history[i], flat)
}

/// A disk that has the hashes of the index that it was opened from stands on it.
pub proof fn law_opened_disk_stands_on_its_index(v: DiskView, source: IndexView)
    requires
        v.layers.len() > 0,
        forall|k: int| #[trigger] v.layers[0].hash_at(k) == source.hash_at(k),
    ensures
        stands_on(v, Some(source), v.layers.drop_first()),
{
}

/// Extending a disk keeps what it stands on.
pub proof fn law_extending_keeps_the_base(
    before: DiskView,
    after: DiskView,
    new_size: nat,
    source: Option<IndexView>,
    below: Seq<IndexView>,
)
    requires
        stands_on(before, source, below),
        extended(before, after, new_size),
    ensures
        stands_on(after, source, below),
        after.flat_len == before.flat_len,
{
    assert(after.layers.drop_first() =~= before.layers.drop_first());
    if source is Some {
        assert forall|k: int| #[trigger]
            after.layers[0].hash_at(k) == ZERO_CHUNK_HASH@ implies
            source->Some_0.hash_at(k) == ZERO_CHUNK_HASH@ by {
            assert(after.layers[0].hash_at(k) == before.layers[0].hash_at(k));
        }
    }
}

/// Ingestion keeps what a disk stands on.
proof fn lemma_ingestion_keeps_the_base(
    before: DiskView,
    after: DiskView,
    flat: Seq<u8>,
    offset: int,
    len: int,
    source: Option<IndexView>,
    below: Seq<IndexView>,
)
    requires
        stands_on(before, source, below),
        ingested(before, after, flat, offset, len),
    ensures
        stands_on(after, source, below),
        after.flat_len == before.flat_len,
{
    assert(after.layers.drop_first() =~= before.layers.drop_first());
    if source is Some {
        law_ingestion_keeps_refinement(before, after, source->Some_0, flat, offset, len);
    }
}

/// Writing keeps what a disk stands on.
proof fn lemma_writing_keeps_the_base(
    before: DiskView,
    after: DiskView,
    flat: Seq<u8>,
    offset: int,
    data: Seq<u8>,
    source: Option<IndexView>,
    below: Seq<IndexView>,
)
    requires
        stands_on(before, source, below),
        written(before, after, flat, offset, data),
    ensures
        stands_on(after, source, below),
        after.flat_len == before.flat_len,
{
    let noted = DiskView { dirty: before.dirty, ..after };
    lemma_ingestion_keeps_the_base(
        before,
        noted,
        flat,
        offset,
        data.len() as int,
        source,
        below,
    );
}

/// Flushing some of the unsaved chunks keeps what a disk stands on.
proof fn lemma_flushing_keeps_the_base(
    before: DiskView,
    after: DiskView,
    done: Set<int>,
    source: Option<IndexView>,
    below: Seq<IndexView>,
)
    requires
        stands_on(before, source, below),
        flushed_part(before, after, done),
    ensures
        stands_on(after, source, below),
        after.flat_len == before.flat_len,
{
    assert(after.layers.drop_first() =~= before.layers.drop_first());
    if source is Some {
        lemma_flushed_part_refines(before, after, done, source->Some_0);
    }
}

/// Every operation keeps what a disk stands on, and the size of its flat file.
pub proof fn law_operations_keep_the_base(
    before: DiskView,
    after: DiskView,
    flat: Seq<u8>,
    source: Option<IndexView>,
    below: Seq<IndexView>,
)
    requires
        stands_on(before, source, below),
        operated(before, after, flat),
    ensures
        stands_on(after, source, below),
        after.flat_len == before.flat_len,
{
    if exists|offset: int, len: int| #[trigger] ingested(before, after, flat, offset, len) {
        let (offset, len) = choose|offset: int, len: int| #[trigger]
            ingested(before, after, flat, offset, len);
        lemma_ingestion_keeps_the_base(before, after, flat, offset, len, source, below);
    } else if exists|
        window: Seq<FlatReply>,
        offset: int,
        old_buf: Seq<u8>,
        buf: Seq<u8>,
        e: BackendError,
    | #[trigger] read_failed(before, after, window, flat, offset, old_buf, buf, e) {
        let (window, offset, old_buf, buf, e) = choose|
            window: Seq<FlatReply>,
            offset: int,
            old_buf: Seq<u8>,
            buf: Seq<u8>,
            e: BackendError,
        | #[trigger] read_failed(before, after, window, flat, offset, old_buf, buf, e);
        lemma_failed_read_keeps_the_base(
            before,
            after,
            window,
            flat,
            offset,
            old_buf,
            buf,
            e,
            source,
            below,
        );
    } else if exists|offset: int, data: Seq<u8>| #[trigger]
        written(before, after, flat, offset, data) {
        let (offset, data) = choose|offset: int, data: Seq<u8>| #[trigger]
            written(before, after, flat, offset, data);
        lemma_writing_keeps_the_base(before, after, flat, offset, data, source, below);
    } else if exists|window: Seq<FlatReply>, offset: int, data: Seq<u8>, e: BackendError|
        #[trigger] write_failed(before, after, window, flat, offset, data, e) {
        let (window, offset, data, e) = choose|
            window: Seq<FlatReply>,
            offset: int,
            data: Seq<u8>,
            e: BackendError,
        | #[trigger] write_failed(before, after, window, flat, offset, data, e);
        lemma_failed_write_keeps_the_base(
            before,
            after,
            window,
            flat,
            offset,
            data,
            e,
            source,
            below,
        );
    } else if flushed(before, after) {
        lemma_flushing_keeps_the_base(before, after, before.dirty.dom(), source, below);
    } else if flush_failed(before, after) {
        let (mid, done, k) = choose|mid: DiskView, done: Set<int>, k: int|
            {
                &&& #[trigger] flushed_part(before, mid, done)
                &&& before.dirty.contains_key(k)
                &&& !#[trigger] done.contains(k)
                &&& after.layers == mid.layers
                &&& after.flat_len == mid.flat_len
                &&& same_elsewhere(
                    mid.contents,
                    after.contents,
                    before.dirty[k],
                )
            };
        lemma_flushing_keeps_the_base(before, mid, done, source, below);
    } else if exists|source_path: Option<Seq<char>>, flat_path: Option<Seq<char>>| #[trigger]
        saved(before, after, source_path, flat_path) {
        let mid = with_paths_of(after, before);
        lemma_flushing_keeps_the_base(before, mid, before.dirty.dom(), source, below);
        assert(after.layers.drop_first() =~= mid.layers.drop_first());
        assert forall|k: int| #[trigger] after.layers[0].hash_at(k) == mid.layers[0].hash_at(k) by {}
    } else {
        let new_size = choose|new_size: nat| #[trigger] extended(before, after, new_size);
        law_extending_keeps_the_base(before, after, new_size, source, below);
    }
}

/// A read that failed keeps what a disk stands on.
proof fn lemma_failed_read_keeps_the_base(
    before: DiskView,
    after: DiskView,
    window: Seq<FlatReply>,
    flat: Seq<u8>,
    offset: int,
    old_buf: Seq<u8>,
    buf: Seq<u8>,
    e: BackendError,
    source: Option<IndexView>,
    below: Seq<IndexView>,
)
    requires
        stands_on(before, source, below),
        read_failed(before, after, window, flat, offset, old_buf, buf, e),
    ensures
        stands_on(after, source, below),
        after.flat_len == before.flat_len,
{
    assert forall|mid: DiskView, pos: int| #[trigger]
        ingested(before, mid, flat, offset, pos) implies stands_on(mid, source, below)
        && mid.flat_len == before.flat_len by {
        lemma_ingestion_keeps_the_base(before, mid, flat, offset, pos, source, below);
    }
}

/// A write that failed keeps what a disk stands on.
proof fn lemma_failed_write_keeps_the_base(
    before: DiskView,
    after: DiskView,
    window: Seq<FlatReply>,
    flat: Seq<u8>,
    offset: int,
    data: Seq<u8>,
    e: BackendError,
    source: Option<IndexView>,
    below: Seq<IndexView>,
)
    requires
        stands_on(before, source, below),
        write_failed(before, after, window, flat, offset, data, e),
    ensures
        stands_on(after, source, below),
        after.flat_len == before.flat_len,
{
    assert forall|mid: DiskView, part: Seq<u8>| #[trigger]
        written(before, mid, flat, offset, part) implies stands_on(mid, source, below)
        && mid.flat_len == before.flat_len by {
        lemma_writing_keeps_the_base(before, mid, flat, offset, part, source, below);
    }
}

/// Whatever a disk goes through, it stands on what it was opened from.
pub proof fn law_history_keeps_the_base(
    history: Seq<DiskView>,
    flat: Seq<u8>,
    source: Option<IndexView>,
    below: Seq<IndexView>,
)
    requires
        is_history(history, flat),
        stands_on(history[0], source, below),
    ensures
        stands_on(history.last(), source, below),
        history.last().flat_len == history[0].flat_len,
    decreases history.len(),
{
    if history.len() > 1 {
        let earlier = history.drop_last();
        assert forall|i: int| 0 < i < earlier.len() implies operated(
            earlier[i - 1],
            #[trigger] earlier[i],
            flat,
        ) by {
            assert(operated(history[i - 1], history[i], flat));
        }
        law_history_keeps_the_base(earlier, flat, source, below);
        let n = history.len() - 1;
        assert(operated(history[n - 1], history[n], flat));
        law_operations_keep_the_base(earlier.last(), history.last(), flat, source, below);
    }
}

/// A checkpoint restores the whole disk. The disk was opened from the index
/// `source`, or anew, over the layers `below`; it went through `history` and was
/// then saved. What is loaded from the saved bytes has, over `source` and `below`
/// and the same store and flat file, the same chunks and the same bytes as the
/// disk has after the save.
pub proof fn law_checkpoint_restores_an_opened_disk(
    history: Seq<DiskView>,
    after: DiskView,
    source: Option<IndexView>,
    below: Seq<IndexView>,
    source_path: Option<Seq<char>>,
    flat_path: Option<Seq<char>>,
    reopened: DiskView,
    flat: Seq<u8>,
)
    requires
        is_history(history, flat),
        stands_on(history[0], source, below),
        saved(history.last(), after, source_path, flat_path),
        measurable(after.layers[0]),
        reopened.layers.len() > 0,
        decode_index(encode_index(after.layers[0])) matches Ok(loaded) ==> forall|k: int|
            #[trigger] reopened.layers[0].hash_at(k) == loaded.hash_at(k),
        reopened.layers.drop_first() == layers_below(source, below),
        reopened.dirty == Map::<int, Seq<u8>>::empty(),
        reopened.contents == after.contents,
        reopened.flat_len == history[0].flat_len,
    ensures
        same_chunks(after, reopened, flat),
        forall|offset: int, len: nat| #[trigger]
            reopened.bytes(flat, offset, len) == after.bytes(flat, offset, len),
{
    law_history_keeps_the_base(history, flat, source, below);
    law_checkpoint_holds_the_saved_disk(
        history.last(),
        after,
        source,
        source_path,
        flat_path,
        reopened,
        flat,
    );
    assert forall|offset: int, len: nat| #[trigger]
        reopened.bytes(flat, offset, len) == after.bytes(flat, offset, len) by {
        assert forall|i: int| 0 <= i < len implies #[trigger] reopened.byte(flat, offset + i)
            == after.byte(flat, offset + i) by {
            let k = (offset + i) / CHUNK_SIZE as int;
            assert(after.chunk(flat, k) == reopened.chunk(flat, k));
        }
        assert(reopened.bytes(flat, offset, len) =~= after.bytes(flat, offset, len));
    }
}

} // verus!
