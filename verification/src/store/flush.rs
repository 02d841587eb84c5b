//! The model of flushing a layered disk and of checkpointing it.

use vstd::prelude::*;

verus! {

use crate::store::chunk::{blake3_hex, same_at, same_elsewhere, stored, PutCall};
use crate::store::disk::{
    ingested, layered_hash, lemma_hash_is_not_zero, piece, same_chunks, touched, with_hash, DiskView,
};
use crate::store::index::{
    decode_index, encode_index, law_load_inverts_save, measurable, IndexView, CHUNK_SIZE,
    ZERO_CHUNK_HASH,
};
use crate::store::write::{law_written_is_read_back, overwritten};

/// The index after the unsaved chunks in `done` were noted in it.
pub open spec fn flushed_index(v: DiskView, done: Set<int>) -> IndexView {
    IndexView {
        hashes: Seq::new(
            v.layers[0].hashes.len(),
            |k: int|
                if done.contains(k) {
                    blake3_hex(v.dirty[k])
                } else {
                    v.layers[0].hashes[k]
                },
        ),
        ..v.layers[0]
    }
}

/// One of the unsaved chunks in `done` now stands under `hash`.
pub open spec fn landed(
    v: DiskView,
    contents: Map<Seq<char>, Seq<u8>>,
    done: Set<int>,
    hash: Seq<char>,
) -> bool {
    exists|k: int|
        #[trigger] done.contains(k) && blake3_hex(v.dirty[k]) == hash && contents.contains_key(hash)
            && contents[hash] == v.dirty[k]
}

/// The unsaved chunks in `done` are in the store and noted in the index.
pub open spec fn flushed_part(before: DiskView, after: DiskView, done: Set<int>) -> bool {
    &&& after.flat_len == before.flat_len
    &&& after.layers == before.layers.update(0, flushed_index(before, done))
    &&& forall|k: int| #[trigger]
        done.contains(k) ==> {
            &&& before.dirty.contains_key(k)
            &&& blake3_hex(before.dirty[k]).len() == 64
            &&& after.contents.contains_key(blake3_hex(before.dirty[k]))
        }
    &&& forall|h: Seq<char>| #[trigger]
        same_at(before.contents, after.contents, h) || landed(before, after.contents, done, h)
}

/// Every unsaved chunk is in the store and noted in the index, as far as the
/// index goes.
pub open spec fn flushed(before: DiskView, after: DiskView) -> bool {
    &&& after.dirty == Map::<int, Seq<u8>>::empty()
    &&& flushed_part(before, after, before.dirty.dom())
}

/// The flush came to a chunk that could not be stored. That chunk and the ones
/// that were still to come are gone.
pub open spec fn flush_failed(before: DiskView, after: DiskView) -> bool {
    &&& after.dirty == Map::<int, Seq<u8>>::empty()
    &&& exists|mid: DiskView, done: Set<int>, k: int|
        {
            &&& #[trigger] flushed_part(before, mid, done)
            &&& before.dirty.contains_key(k)
            &&& !#[trigger] done.contains(k)
            &&& after.layers == mid.layers
            &&& after.flat_len == mid.flat_len
            &&& same_elsewhere(mid.contents, after.contents, before.dirty[k])
        }
}

/// The chunks at the positions in `order`, and nothing else, were handed to the
/// store one after the other.
pub open spec fn handed_over(
    v: DiskView,
    before: Seq<PutCall>,
    after: Seq<PutCall>,
    order: Seq<int>,
) -> bool {
    &&& order.no_duplicates()
    &&& forall|i: int| 0 <= i < order.len() ==> v.dirty.contains_key(#[trigger] order[i])
    &&& after.len() == before.len() + order.len()
    &&& after.take(before.len() as int) == before
    &&& forall|i: int|
        0 <= i < order.len() ==> #[trigger] after[before.len() + i].data == v.dirty[order[i]]
}

/// The calls that a flush makes. Each unsaved chunk is handed to the store once,
/// with all of its content, in any order. It goes well exactly when every call
/// does. Otherwise the last call is the one that failed, and its error is the
/// one that the flush reports.
pub open spec fn flush_calls(
    v: DiskView,
    before: Seq<PutCall>,
    after: Seq<PutCall>,
    error: Option<Seq<char>>,
) -> bool {
    exists|order: Seq<int>|
        {
            &&& #[trigger] handed_over(v, before, after, order)
            &&& match error {
                None => {
                    &&& forall|k: int| #[trigger]
                        v.dirty.contains_key(k) ==> order.contains(k)
                    &&& forall|i: int|
                        before.len() <= i < after.len() ==> (#[trigger] after[i]).reply is Ok
                },
                Some(text) => {
                    &&& order.len() > 0
                    &&& after.last().reply == Err::<Seq<char>, Seq<char>>(text)
                    &&& forall|i: int|
                        before.len() <= i < after.len() - 1 ==> (#[trigger] after[i]).reply is Ok
                },
            }
        }
}

/// A flush with nothing unsaved makes no call on the store.
pub proof fn law_flush_of_nothing_calls_nothing(
    v: DiskView,
    before: Seq<PutCall>,
    after: Seq<PutCall>,
    error: Option<Seq<char>>,
)
    requires
        v.dirty == Map::<int, Seq<u8>>::empty(),
        flush_calls(v, before, after, error),
    ensures
        after == before,
        error is None,
{
    let witness = choose|order: Seq<int>|
        {
            &&& #[trigger] handed_over(v, before, after, order)
            &&& match error {
                None => {
                    &&& forall|k: int| #[trigger]
                        v.dirty.contains_key(k) ==> order.contains(k)
                    &&& forall|i: int|
                        before.len() <= i < after.len() ==> (#[trigger] after[i]).reply is Ok
                },
                Some(text) => {
                    &&& order.len() > 0
                    &&& after.last().reply == Err::<Seq<char>, Seq<char>>(text)
                    &&& forall|i: int|
                        before.len() <= i < after.len() - 1 ==> (#[trigger] after[i]).reply is Ok
                },
            }
        };
    if witness.len() > 0 {
        assert(v.dirty.contains_key(witness[0]));
    }
    assert(after.take(before.len() as int) =~= after);
}

/// Flushing cannot mix chunks up: no other content stands, or is looked for in
/// vain, under the hashes of the unsaved chunks.
pub open spec fn flushable(v: DiskView) -> bool {
    &&& forall|i: int|
        #[trigger] v.dirty.contains_key(i) && v.contents.contains_key(blake3_hex(v.dirty[i]))
            ==> v.contents[blake3_hex(v.dirty[i])] == v.dirty[i]
    &&& forall|i: int, j: int|
        #[trigger] v.dirty.contains_key(i) && #[trigger] v.dirty.contains_key(j) && blake3_hex(
            v.dirty[i],
        ) == blake3_hex(v.dirty[j]) ==> v.dirty[i] == v.dirty[j]
    &&& forall|i: int, k: int|
        #[trigger] v.dirty.contains_key(i) && !v.dirty.contains_key(k) && #[trigger] v.hash_of(k)
            == blake3_hex(v.dirty[i]) ==> v.contents.contains_key(blake3_hex(v.dirty[i]))
}

/// Every unsaved chunk is one that the index covers.
pub open spec fn dirty_in_range(v: DiskView) -> bool {
    forall|k: int| #[trigger] v.dirty.contains_key(k) ==> 0 <= k < v.layers[0].hashes.len()
}

/// No unsaved chunk has the hash of a different chunk of the flat file.
pub open spec fn apart_from_flat(v: DiskView, flat: Seq<u8>) -> bool {
    forall|i: int, k: int|
        #[trigger] v.ingestible(flat, i) && #[trigger] v.dirty.contains_key(k) && blake3_hex(
            v.dirty[k],
        ) == blake3_hex(piece(flat, i)) ==> v.dirty[k] == piece(flat, i)
}

/// Nothing was flushed yet.
pub proof fn lemma_flushed_nothing(v: DiskView)
    requires
        v.layers.len() > 0,
    ensures
        flushed_part(v, v, Set::empty()),
{
    let done = Set::<int>::empty();
    assert(flushed_index(v, done).hashes =~= v.layers[0].hashes);
    assert(v.layers =~= v.layers.update(0, flushed_index(v, done)));
}

/// One more chunk is flushed.
pub proof fn lemma_flush_step(
    before: DiskView,
    now: DiskView,
    next: DiskView,
    done: Set<int>,
    k: int,
)
    requires
        before.layers.len() > 0,
        flushed_part(before, now, done),
        before.dirty.contains_key(k),
        !done.contains(k),
        stored(now.contents, next.contents, before.dirty[k]),
        blake3_hex(before.dirty[k]).len() == 64,
        next.flat_len == now.flat_len,
        next.layers == now.layers.update(
            0,
            with_hash(now.layers[0], k, blake3_hex(before.dirty[k])),
        ),
    ensures
        flushed_part(before, next, done.insert(k)),
{
    let all = done.insert(k);
    let h0 = blake3_hex(before.dirty[k]);
    assert(next.layers[0].hashes =~= flushed_index(before, all).hashes);
    assert(next.layers =~= before.layers.update(0, flushed_index(before, all)));
    assert forall|h: Seq<char>| #[trigger]
        same_at(before.contents, next.contents, h) || landed(before, next.contents, all, h) by {
        assert(same_at(before.contents, now.contents, h) || landed(before, now.contents, done, h));
        assert(h != h0 ==> same_at(now.contents, next.contents, h));
        if h == h0 && next.contents[h0] == before.dirty[k] {
            assert(all.contains(k));
        } else if landed(before, now.contents, done, h) {
            let j = choose|j: int|
                #[trigger] done.contains(j) && blake3_hex(before.dirty[j]) == h
                    && now.contents.contains_key(h) && now.contents[h] == before.dirty[j];
            assert(all.contains(j));
        }
    }
    assert forall|j: int| #[trigger] all.contains(j) implies {
        &&& before.dirty.contains_key(j)
        &&& blake3_hex(before.dirty[j]).len() == 64
        &&& next.contents.contains_key(blake3_hex(before.dirty[j]))
    } by {
        if j != k {
            assert(done.contains(j));
            let h = blake3_hex(before.dirty[j]);
            assert(h != h0 ==> same_at(now.contents, next.contents, h));
        }
    }
}

/// The layers after a flush give the hash of the chunk where one was flushed
/// and the former hash everywhere else.
pub proof fn lemma_flushed_hash(before: DiskView, after: DiskView, done: Set<int>, idx: int)
    requires
        before.layers.len() > 0,
        flushed_part(before, after, done),
    ensures
        after.hash_of(idx) == if done.contains(idx) && 0 <= idx < before.layers[0].hashes.len() {
            blake3_hex(before.dirty[idx])
        } else {
            before.hash_of(idx)
        },
{
    assert(after.layers.drop_first() =~= before.layers.drop_first());
    if done.contains(idx) {
        lemma_hash_is_not_zero(blake3_hex(before.dirty[idx]));
    }
}

/// Flushing keeps the disk: every chunk reads the same from the store as it did
/// from memory. The exception is an unsaved chunk past the end of the index,
/// which has no place to be noted in.
pub proof fn law_flush_keeps_the_disk(before: DiskView, after: DiskView, flat: Seq<u8>)
    requires
        before.layers.len() > 0,
        flushable(before),
        flushed(before, after),
    ensures
        forall|idx: int|
            !before.dirty.contains_key(idx) || 0 <= idx < before.layers[0].hashes.len()
                ==> #[trigger] after.chunk(flat, idx) == before.chunk(flat, idx),
        dirty_in_range(before) ==> same_chunks(before, after, flat),
{
    let done = before.dirty.dom();
    assert forall|idx: int|
        !before.dirty.contains_key(idx) || 0 <= idx
            < before.layers[0].hashes.len() implies #[trigger] after.chunk(flat, idx)
        == before.chunk(flat, idx) by {
        lemma_flushed_hash(before, after, done, idx);
        let h = after.hash_of(idx);
        assert(same_at(before.contents, after.contents, h) || landed(
            before,
            after.contents,
            done,
            h,
        ));
        if before.dirty.contains_key(idx) {
            assert(done.contains(idx));
            lemma_hash_is_not_zero(h);
        } else {
            assert(!done.contains(idx));
            assert(h == before.hash_of(idx));
            if landed(before, after.contents, done, h) {
                let k = choose|k: int|
                    #[trigger] done.contains(k) && blake3_hex(before.dirty[k]) == h
                        && after.contents.contains_key(h) && after.contents[h] == before.dirty[k];
                assert(before.dirty.contains_key(k));
            }
        }
    }
    if dirty_in_range(before) {
        assert forall|idx: int| #[trigger] before.chunk(flat, idx) == after.chunk(flat, idx) by {
            assert(before.dirty.contains_key(idx) ==> 0 <= idx < before.layers[0].hashes.len());
            assert(after.chunk(flat, idx) == before.chunk(flat, idx));
        }
    }
}

/// A flush with nothing unsaved changes nothing, and it cannot fail.
pub proof fn law_flush_of_nothing_changes_nothing(before: DiskView, after: DiskView)
    requires
        before.layers.len() > 0,
        before.dirty == Map::<int, Seq<u8>>::empty(),
        flushed(before, after) || flush_failed(before, after),
    ensures
        flushed(before, after),
        after == before,
{
    let none = before.dirty.dom();
    if !flushed(before, after) {
        let (mid, done, k) = choose|mid: DiskView, done: Set<int>, k: int|
            {
                &&& #[trigger] flushed_part(before, mid, done)
                &&& before.dirty.contains_key(k)
                &&& !#[trigger] done.contains(k)
                &&& after.layers == mid.layers
                &&& after.flat_len == mid.flat_len
                &&& same_elsewhere(mid.contents, after.contents, before.dirty[k])
            };
        assert(before.dirty.contains_key(k));
    }
    assert(flushed_index(before, none).hashes =~= before.layers[0].hashes);
    assert(after.layers =~= before.layers);
    assert forall|h: Seq<char>| #[trigger] same_at(before.contents, after.contents, h) by {
        assert(same_at(before.contents, after.contents, h) || landed(
            before,
            after.contents,
            none,
            h,
        ));
    }
    assert forall|h: Seq<char>| after.contents.contains_key(h) == before.contents.contains_key(
        h,
    ) by {
        assert(same_at(before.contents, after.contents, h));
    }
    assert forall|h: Seq<char>| after.contents.contains_key(h) implies after.contents[h]
        == before.contents[h] by {
        assert(same_at(before.contents, after.contents, h));
    }
    assert(after.contents =~= before.contents);
}

/// What was written survives a flush: the bytes that were written are read back
/// from the store as they were from memory, as far as the index goes.
pub proof fn law_written_survives_a_flush(
    before: DiskView,
    written: DiskView,
    after: DiskView,
    flat: Seq<u8>,
    offset: int,
    data: Seq<u8>,
)
    requires
        0 <= offset,
        overwritten(before, written, offset, data),
        written.layers.len() > 0,
        offset + data.len() <= written.layers[0].hashes.len() * CHUNK_SIZE,
        flushable(written),
        flushed(written, after),
    ensures
        after.bytes(flat, offset, data.len()) == data,
{
    law_written_is_read_back(before, written, flat, offset, data);
    law_flush_keeps_the_disk(written, after, flat);
    assert forall|i: int| 0 <= i < data.len() implies #[trigger] after.byte(flat, offset + i)
        == data[i] by {
        let k = (offset + i) / CHUNK_SIZE as int;
        assert(0 <= k < written.layers[0].hashes.len());
        assert(after.chunk(flat, k) == written.chunk(flat, k));
        assert(written.bytes(flat, offset, data.len())[i] == written.byte(flat, offset + i));
    }
    assert(after.bytes(flat, offset, data.len()) =~= data);
}

/// Flushing leaves a stable disk stable.
pub proof fn law_flush_keeps_stability(before: DiskView, after: DiskView, flat: Seq<u8>)
    requires
        before.layers.len() > 0,
        before.stable(flat),
        dirty_in_range(before),
        apart_from_flat(before, flat),
        flushed(before, after),
    ensures
        after.stable(flat),
{
    let done = before.dirty.dom();
    assert forall|k: int| true implies #[trigger] after.hash_of(k) == if before.dirty.contains_key(
        k,
    ) {
        blake3_hex(before.dirty[k])
    } else {
        before.hash_of(k)
    } by {
        lemma_flushed_hash(before, after, done, k);
        assert(before.dirty.contains_key(k) ==> 0 <= k < before.layers[0].hashes.len());
        assert(done.contains(k) == before.dirty.contains_key(k));
    }
    assert forall|k: int| #[trigger] after.ingestible(flat, k) implies before.ingestible(
        flat,
        k,
    ) by {
        assert(after.hash_of(k) == ZERO_CHUNK_HASH@);
        if before.dirty.contains_key(k) {
            assert(done.contains(k));
            lemma_hash_is_not_zero(blake3_hex(before.dirty[k]));
        }
    }
    assert forall|i: int|
        #[trigger] after.ingestible(flat, i) && after.contents.contains_key(
            blake3_hex(piece(flat, i)),
        ) implies after.contents[blake3_hex(piece(flat, i))] == piece(flat, i) by {
        let h = blake3_hex(piece(flat, i));
        assert(before.ingestible(flat, i));
        assert(same_at(before.contents, after.contents, h) || landed(
            before,
            after.contents,
            done,
            h,
        ));
        if landed(before, after.contents, done, h) {
            let k = choose|k: int|
                #[trigger] done.contains(k) && blake3_hex(before.dirty[k]) == h
                    && after.contents.contains_key(h) && after.contents[h] == before.dirty[k];
            assert(before.dirty.contains_key(k));
        }
    }
    assert forall|i: int, k: int|
        #[trigger] after.ingestible(flat, i) && !after.dirty.contains_key(k)
            && #[trigger] after.hash_of(k) == blake3_hex(
            piece(flat, i),
        ) implies after.contents.contains_key(blake3_hex(piece(flat, i))) by {
        let h = blake3_hex(piece(flat, i));
        assert(before.ingestible(flat, i));
        assert(same_at(before.contents, after.contents, h) || landed(
            before,
            after.contents,
            done,
            h,
        ));
        if before.dirty.contains_key(k) {
            assert(done.contains(k));
        } else {
            assert(before.hash_of(k) == h);
        }
    }
}

/// Wherever `index` asks its parent, `source` does too.
pub open spec fn refines(index: IndexView, source: IndexView) -> bool {
    forall|k: int| #[trigger]
        index.hash_at(k) == ZERO_CHUNK_HASH@ ==> source.hash_at(k) == ZERO_CHUNK_HASH@
}

/// The disk was flushed, and its index made ready to be saved: the parent is the
/// index that the disk was opened from, and the flat file is named unless one
/// is already.
pub open spec fn saved(
    before: DiskView,
    after: DiskView,
    source_path: Option<Seq<char>>,
    flat_path: Option<Seq<char>>,
) -> bool {
    &&& after.layers.len() == before.layers.len()
    &&& flushed(before, with_paths_of(after, before))
    &&& after.layers[0].parent_path == source_path
    &&& after.layers[0].fallback_path == if before.layers[0].fallback_path is Some {
        before.layers[0].fallback_path
    } else {
        flat_path
    }
}

/// A disk with the paths that another one has in its index.
pub open spec fn with_paths_of(v: DiskView, other: DiskView) -> DiskView {
    DiskView {
        layers: v.layers.update(
            0,
            IndexView {
                parent_path: other.layers[0].parent_path,
                fallback_path: other.layers[0].fallback_path,
                ..v.layers[0]
            },
        ),
        ..v
    }
}

/// The layers below a checkpoint: the index that the disk was opened from, if
/// there was one, and what is below that.
pub open spec fn layers_below(source: Option<IndexView>, rest: Seq<IndexView>) -> Seq<IndexView> {
    match source {
        Some(s) => seq![s] + rest,
        None => rest,
    }
}

/// The paths in an index do not matter for what a disk holds, nor does an index
/// in between that has nothing of its own.
proof fn lemma_delta_hash(
    layers: Seq<IndexView>,
    reopened: Seq<IndexView>,
    source: Option<IndexView>,
    idx: int,
)
    requires
        layers.len() > 0,
        reopened.len() > 0,
        source matches Some(s) ==> refines(layers[0], s),
        reopened[0].hash_at(idx) == layers[0].hash_at(idx),
        reopened.drop_first() == layers_below(source, layers.drop_first()),
    ensures
        layered_hash(reopened, idx) == layered_hash(layers, idx),
{
    match source {
        Some(s) => {
            let below = reopened.drop_first();
            assert(below[0] == s);
            assert(below.drop_first() =~= layers.drop_first());
            assert(layered_hash(below, idx) == if s.hash_at(idx) != ZERO_CHUNK_HASH@ {
                s.hash_at(idx)
            } else {
                layered_hash(layers.drop_first(), idx)
            });
            assert(layers[0].hash_at(idx) == ZERO_CHUNK_HASH@ ==> s.hash_at(idx)
                == ZERO_CHUNK_HASH@);
        },
        None => {},
    }
}

/// A checkpoint holds the disk that was saved. What is loaded from the saved bytes
/// has, over the index `source` that the disk was opened from, if there was one,
/// and over what was below it, the same chunks as the disk has after the save.
/// The disk may be extended when it is opened again.
pub proof fn law_checkpoint_holds_the_saved_disk(
    before: DiskView,
    after: DiskView,
    source: Option<IndexView>,
    source_path: Option<Seq<char>>,
    flat_path: Option<Seq<char>>,
    reopened: DiskView,
    flat: Seq<u8>,
)
    requires
        before.layers.len() > 0,
        source matches Some(s) ==> refines(before.layers[0], s),
        saved(before, after, source_path, flat_path),
        measurable(after.layers[0]),
        reopened.layers.len() > 0,
        decode_index(encode_index(after.layers[0])) matches Ok(loaded) ==> forall|k: int|
            #[trigger] reopened.layers[0].hash_at(k) == loaded.hash_at(k),
        reopened.layers.drop_first() == layers_below(source, before.layers.drop_first()),
        reopened.dirty == Map::<int, Seq<u8>>::empty(),
        reopened.contents == after.contents,
        reopened.flat_len == before.flat_len,
    ensures
        same_chunks(after, reopened, flat),
{
    let mid = with_paths_of(after, before);
    assert(mid.layers.len() == before.layers.len());
    assert(after.layers.len() == mid.layers.len());
    assert(mid.layers[0].hashes == after.layers[0].hashes);
    law_load_inverts_save(after.layers[0]);
    if source is Some {
        law_flush_keeps_refinement(before, mid, source->Some_0);
    }
    assert(mid.layers.drop_first() =~= before.layers.drop_first());
    assert(after.layers.drop_first() =~= mid.layers.drop_first());
    assert forall|idx: int| #[trigger] after.chunk(flat, idx) == reopened.chunk(flat, idx) by {
        assert(reopened.layers[0].hash_at(idx) == after.layers[0].hash_at(idx));
        assert(mid.layers[0].hash_at(idx) == after.layers[0].hash_at(idx));
        lemma_delta_hash(mid.layers, reopened.layers, source, idx);
        assert(after.hash_of(idx) == mid.hash_of(idx));
        assert(after.hash_of(idx) == reopened.hash_of(idx));
    }
}

/// A checkpoint restores the disk: opened again as above, it has the chunks that
/// the disk had before the save, unsaved ones and all.
pub proof fn law_checkpoint_restores_the_disk(
    before: DiskView,
    after: DiskView,
    source: Option<IndexView>,
    source_path: Option<Seq<char>>,
    flat_path: Option<Seq<char>>,
    reopened: DiskView,
    flat: Seq<u8>,
)
    requires
        before.layers.len() > 0,
        flushable(before),
        dirty_in_range(before),
        source matches Some(s) ==> refines(before.layers[0], s),
        saved(before, after, source_path, flat_path),
        measurable(after.layers[0]),
        reopened.layers.len() > 0,
        decode_index(encode_index(after.layers[0])) matches Ok(loaded) ==> forall|k: int|
            #[trigger] reopened.layers[0].hash_at(k) == loaded.hash_at(k),
        reopened.layers.drop_first() == layers_below(source, before.layers.drop_first()),
        reopened.dirty == Map::<int, Seq<u8>>::empty(),
        reopened.contents == after.contents,
        reopened.flat_len == before.flat_len,
    ensures
        same_chunks(before, reopened, flat),
{
    let mid = with_paths_of(after, before);
    law_flush_keeps_the_disk(before, mid, flat);
    law_checkpoint_holds_the_saved_disk(
        before,
        after,
        source,
        source_path,
        flat_path,
        reopened,
        flat,
    );
    assert(mid.layers.len() == before.layers.len());
    assert(after.layers.drop_first() =~= mid.layers.drop_first());
    assert forall|idx: int| #[trigger] before.chunk(flat, idx) == reopened.chunk(flat, idx) by {
        assert(before.chunk(flat, idx) == mid.chunk(flat, idx));
        assert(mid.layers[0].hash_at(idx) == after.layers[0].hash_at(idx));
        assert(mid.hash_of(idx) == after.hash_of(idx));
        assert(mid.chunk(flat, idx) == after.chunk(flat, idx));
        assert(after.chunk(flat, idx) == reopened.chunk(flat, idx));
    }
}

/// Ingestion only adds to an index: it keeps refining what it refined.
pub proof fn law_ingestion_keeps_refinement(
    before: DiskView,
    after: DiskView,
    source: IndexView,
    flat: Seq<u8>,
    offset: int,
    len: int,
)
    requires
        before.layers.len() > 0,
        refines(before.layers[0], source),
        ingested(before, after, flat, offset, len),
    ensures
        refines(after.layers[0], source),
{
    assert forall|k: int| #[trigger]
        after.layers[0].hash_at(k) == ZERO_CHUNK_HASH@ implies source.hash_at(k)
        == ZERO_CHUNK_HASH@ by {
        if touched(offset, len, k) && before.ingestible(flat, k) {
            lemma_hash_is_not_zero(blake3_hex(piece(flat, k)));
        }
        assert(before.layers[0].hash_at(k) == ZERO_CHUNK_HASH@);
    }
}

/// Noting unsaved chunks only adds to an index: it keeps refining what it refined.
pub proof fn lemma_flushed_part_refines(
    before: DiskView,
    after: DiskView,
    done: Set<int>,
    source: IndexView,
)
    requires
        before.layers.len() > 0,
        refines(before.layers[0], source),
        flushed_part(before, after, done),
    ensures
        refines(after.layers[0], source),
{
    assert forall|k: int| #[trigger]
        after.layers[0].hash_at(k) == ZERO_CHUNK_HASH@ implies source.hash_at(k)
        == ZERO_CHUNK_HASH@ by {
        if done.contains(k) {
            lemma_hash_is_not_zero(blake3_hex(before.dirty[k]));
        }
        assert(before.layers[0].hash_at(k) == ZERO_CHUNK_HASH@);
    }
}

/// Flushing only adds to an index: it keeps refining what it refined.
pub proof fn law_flush_keeps_refinement(before: DiskView, after: DiskView, source: IndexView)
    requires
        before.layers.len() > 0,
        refines(before.layers[0], source),
        flushed(before, after),
    ensures
        refines(after.layers[0], source),
{
    lemma_flushed_part_refines(before, after, before.dirty.dom(), source);
}

} // verus!
