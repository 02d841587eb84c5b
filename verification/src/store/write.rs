//! The model of writing to a layered disk, and what it promises to later reads.

use vstd::prelude::*;

verus! {

use crate::store::disk::{
    before_chunk, byte_or_zero, ingested, law_ingestion_is_invisible,
    law_ingestion_keeps_undisturbed_chunks, lemma_stable_is_undisturbed, touched, undisturbed,
    DiskView,
};
use crate::store::index::CHUNK_SIZE;

/// The place in `data`, which goes to `offset`, of byte `i` of chunk `idx`.
pub open spec fn place(idx: int, offset: int, i: int) -> int {
    idx * CHUNK_SIZE + i - offset
}

/// Byte `i` of chunk `idx` is one of the `len` bytes from `offset` on.
pub open spec fn hit(idx: int, offset: int, len: int, i: int) -> bool {
    0 <= i < CHUNK_SIZE && 0 <= place(idx, offset, i) < len
}

/// Where the last of these bytes in chunk `idx` ends.
pub open spec fn hit_end(idx: int, offset: int, len: int) -> int {
    if (idx + 1) * CHUNK_SIZE <= offset + len {
        CHUNK_SIZE as int
    } else {
        offset + len - idx * CHUNK_SIZE
    }
}

/// Chunk `idx` after `data` was laid over it. A chunk that is too short grows,
/// by zeros, up to the end of the data.
pub open spec fn overlay(chunk: Seq<u8>, idx: int, offset: int, data: Seq<u8>) -> Seq<u8> {
    let end = hit_end(idx, offset, data.len() as int);
    Seq::new(
        if chunk.len() < end {
            end as nat
        } else {
            chunk.len()
        },
        |i: int|
            if hit(idx, offset, data.len() as int, i) {
                data[place(idx, offset, i)]
            } else {
                byte_or_zero(chunk, i)
            },
    )
}

/// Chunk `idx` holds what `data` has for it.
pub open spec fn carries(chunk: Seq<u8>, idx: int, offset: int, data: Seq<u8>) -> bool {
    forall|i: int|
        #[trigger] hit(idx, offset, data.len() as int, i) ==> i < chunk.len() && chunk[i]
            == data[place(idx, offset, i)]
}

/// `data` was written at `offset`: the chunks that it touches are unsaved now
/// and hold it, over what they held before. Of a chunk that is disturbed by
/// keeping the ones before it in the store, the latter is not said. The other
/// unsaved chunks are as they were.
pub open spec fn written(
    before: DiskView,
    after: DiskView,
    flat: Seq<u8>,
    offset: int,
    data: Seq<u8>,
) -> bool {
    &&& ingested(
        before,
        DiskView { dirty: before.dirty, ..after },
        flat,
        offset,
        data.len() as int,
    )
    &&& overwritten(before, after, offset, data)
    &&& forall|k: int|
        touched(offset, data.len() as int, k) && undisturbed(
            before,
            flat,
            offset,
            before_chunk(offset, k),
            k,
        ) ==> #[trigger] after.dirty[k] == overlay(before.chunk(flat, k), k, offset, data)
}

/// The unsaved chunks after `data` was written at `offset`.
pub open spec fn overwritten(
    before: DiskView,
    after: DiskView,
    offset: int,
    data: Seq<u8>,
) -> bool {
    &&& forall|k: int| #[trigger]
        after.dirty.contains_key(k) <==> before.dirty.contains_key(k) || touched(
            offset,
            data.len() as int,
            k,
        )
    &&& forall|k: int|
        before.dirty.contains_key(k) && !touched(offset, data.len() as int, k)
            ==> #[trigger] after.dirty[k] == before.dirty[k]
    &&& forall|k: int|
        touched(offset, data.len() as int, k) ==> carries(#[trigger] after.dirty[k], k, offset, data)
}

/// Data that ends at a chunk boundary leaves the same in its chunks, however
/// much follows it.
pub proof fn lemma_overlay_prefix(
    chunk: Seq<u8>,
    idx: int,
    offset: int,
    data: Seq<u8>,
    pos: int,
    end: int,
)
    requires
        0 <= offset,
        0 <= pos <= end <= data.len(),
        touched(offset, pos, idx),
        pos == 0 || (offset + pos) % CHUNK_SIZE as int == 0,
    ensures
        overlay(chunk, idx, offset, data.take(pos)) == overlay(chunk, idx, offset, data.take(end)),
        carries(chunk, idx, offset, data.take(pos)) ==> carries(
            chunk,
            idx,
            offset,
            data.take(end),
        ),
{
    assert((idx + 1) * CHUNK_SIZE <= offset + pos);
    assert forall|i: int| hit(idx, offset, end, i) implies hit(idx, offset, pos, i) by {}
    assert(overlay(chunk, idx, offset, data.take(pos)) =~= overlay(
        chunk,
        idx,
        offset,
        data.take(end),
    ));
    if carries(chunk, idx, offset, data.take(pos)) {
        assert forall|i: int| #[trigger]
            hit(idx, offset, data.take(end).len() as int, i) implies i < chunk.len() && chunk[i]
            == data.take(end)[place(idx, offset, i)] by {
            assert(hit(idx, offset, data.take(pos).len() as int, i));
            assert(chunk[i] == data.take(pos)[place(idx, offset, i)]);
        }
    }
}

/// One more chunk is written: what was true of the data up to it is true of the
/// data up to its end.
pub proof fn lemma_overwrite_step(
    before: DiskView,
    now: DiskView,
    next: DiskView,
    offset: int,
    data: Seq<u8>,
    pos: int,
    end: int,
    idx: int,
)
    requires
        0 <= offset,
        0 <= pos <= end <= data.len(),
        pos == 0 || (offset + pos) % CHUNK_SIZE as int == 0,
        !touched(offset, pos, idx),
        forall|k: int| #[trigger]
            touched(offset, end, k) <==> touched(offset, pos, k) || k == idx,
        overwritten(before, now, offset, data.take(pos)),
        next.dirty == now.dirty.insert(idx, next.dirty[idx]),
        carries(next.dirty[idx], idx, offset, data.take(end)),
    ensures
        overwritten(before, next, offset, data.take(end)),
{
    assert forall|k: int| touched(offset, end, k) implies carries(
        #[trigger] next.dirty[k],
        k,
        offset,
        data.take(end),
    ) by {
        if k != idx {
            assert(touched(offset, pos, k));
            lemma_overlay_prefix(now.dirty[k], k, offset, data, pos, end);
        }
    }
    assert forall|k: int|
        before.dirty.contains_key(k) && !touched(offset, end, k) implies #[trigger] next.dirty[k]
        == before.dirty[k] by {
        assert(!touched(offset, pos, k));
        assert(now.dirty[k] == before.dirty[k]);
    }
}

/// What was written is read back: the bytes that were written to a disk are the
/// bytes that the disk holds there, whatever it held before and whatever the
/// store does. Until the next flush they come from the unsaved chunks.
pub proof fn law_written_is_read_back(
    before: DiskView,
    after: DiskView,
    flat: Seq<u8>,
    offset: int,
    data: Seq<u8>,
)
    requires
        0 <= offset,
        overwritten(before, after, offset, data),
    ensures
        after.bytes(flat, offset, data.len()) == data,
        forall|o: int|
            #![trigger after.byte(flat, o)]
            offset <= o < offset + data.len() ==> after.dirty.contains_key(o / CHUNK_SIZE as int),
{
    assert forall|i: int| 0 <= i < data.len() implies #[trigger] after.byte(flat, offset + i)
        == data[i] && after.dirty.contains_key((offset + i) / CHUNK_SIZE as int) by {
        let k = (offset + i) / CHUNK_SIZE as int;
        let j = (offset + i) % CHUNK_SIZE as int;
        assert(touched(offset, data.len() as int, k));
        assert(carries(after.dirty[k], k, offset, data));
        assert(hit(k, offset, data.len() as int, j));
        assert(after.dirty[k][j] == data[place(k, offset, j)]);
    }
    assert forall|o: int|
        #![trigger after.byte(flat, o)]
        offset <= o < offset + data.len() implies after.dirty.contains_key(
        o / CHUNK_SIZE as int,
    ) by {
        assert(after.byte(flat, offset + (o - offset)) == data[o - offset]);
    }
    assert(after.bytes(flat, offset, data.len()) =~= data);
}

/// A write keeps every other byte: a byte of a chunk that it touches comes from
/// what the chunk held when its turn came, and any other byte from its own chunk,
/// as long as that is not disturbed by what the write keeps in the store.
pub proof fn law_write_keeps_other_bytes(
    before: DiskView,
    after: DiskView,
    flat: Seq<u8>,
    offset: int,
    data: Seq<u8>,
    o: int,
)
    requires
        0 <= offset,
        0 <= o,
        !(offset <= o < offset + data.len()),
        before.layers.len() > 0,
        written(before, after, flat, offset, data),
        undisturbed(
            before,
            flat,
            offset,
            if touched(offset, data.len() as int, o / CHUNK_SIZE as int) {
                before_chunk(offset, o / CHUNK_SIZE as int)
            } else {
                data.len() as int
            },
            o / CHUNK_SIZE as int,
        ),
    ensures
        after.byte(flat, o) == before.byte(flat, o),
{
    let mid = DiskView { dirty: before.dirty, ..after };
    let k = o / CHUNK_SIZE as int;
    let j = o % CHUNK_SIZE as int;
    assert(!hit(k, offset, data.len() as int, j));
    if touched(offset, data.len() as int, k) {
        assert(after.dirty.contains_key(k));
        assert(after.dirty[k] == overlay(before.chunk(flat, k), k, offset, data));
    } else {
        law_ingestion_keeps_undisturbed_chunks(before, mid, flat, offset, data.len() as int, k);
        assert(after.dirty.contains_key(k) == before.dirty.contains_key(k));
        assert(after.hash_of(k) == mid.hash_of(k));
        assert(after.is_flat(k) == mid.is_flat(k));
        if before.dirty.contains_key(k) {
            assert(after.dirty[k] == before.dirty[k]);
        }
        assert(after.chunk(flat, k) == mid.chunk(flat, k));
    }
}

/// A write to a stable disk changes the bytes that it writes and no others, and
/// it leaves the disk stable.
pub proof fn law_write_changes_nothing_else(
    before: DiskView,
    after: DiskView,
    flat: Seq<u8>,
    offset: int,
    data: Seq<u8>,
)
    requires
        0 <= offset,
        before.layers.len() > 0,
        before.stable(flat),
        written(before, after, flat, offset, data),
    ensures
        forall|o: int|
            0 <= o && !(offset <= o < offset + data.len()) ==> #[trigger] after.byte(flat, o)
                == before.byte(flat, o),
        after.stable(flat),
{
    let mid = DiskView { dirty: before.dirty, ..after };
    law_ingestion_is_invisible(before, mid, flat, offset, data.len() as int);
    assert forall|o: int| 0 <= o && !(offset <= o < offset + data.len()) implies #[trigger] after.byte(
        flat,
        o,
    ) == before.byte(flat, o) by {
        let k = o / CHUNK_SIZE as int;
        lemma_stable_is_undisturbed(before, flat, offset, before_chunk(offset, k), k);
        lemma_stable_is_undisturbed(before, flat, offset, data.len() as int, k);
        law_write_keeps_other_bytes(before, after, flat, offset, data, o);
    }
    assert forall|k: int| #[trigger] after.ingestible(flat, k) implies mid.ingestible(
        flat,
        k,
    ) by {
        assert(!after.dirty.contains_key(k));
        assert(after.hash_of(k) == mid.hash_of(k));
    }
    assert forall|k: int| #[trigger] after.hash_of(k) == mid.hash_of(k) by {}
    assert forall|k: int| !after.dirty.contains_key(k) implies !mid.dirty.contains_key(k) by {
        assert(after.dirty.contains_key(k) <==> before.dirty.contains_key(k) || touched(
            offset,
            data.len() as int,
            k,
        ));
    }
}

} // verus!
