//! The mathematical model of a layered disk: what each chunk and each byte is,
//! given the unsaved chunks, the indexes, the chunk store and the flat file.

use vstd::prelude::*;

verus! {

use crate::store::chunk::{blake3_hex, same_at, stored};
use crate::store::index::{IndexView, CHUNK_SIZE, ZERO_CHUNK_HASH};

/// Everything that decides what a disk holds, but for the bytes of the flat
/// file.
#[verifier::ext_equal]
pub struct DiskView {
    /// Chunks that were written and not flushed.
    pub dirty: Map<int, Seq<u8>>,
    /// The disk's own index, then its parent, its parent's parent, and so on.
    pub layers: Seq<IndexView>,
    /// The chunks in the store, by hash.
    pub contents: Map<Seq<char>, Seq<u8>>,
    /// The size of the flat file at the bottom, 0 where there is none.
    pub flat_len: nat,
}

/// `n` zero bytes.
pub open spec fn zeros(n: nat) -> Seq<u8> {
    Seq::new(n, |i: int| 0u8)
}

/// Every byte is zero.
pub open spec fn all_zero(s: Seq<u8>) -> bool {
    forall|i: int| 0 <= i < s.len() ==> s[i] == 0
}

/// The byte at `i`; a chunk that is shorter than that reads as zero there.
pub open spec fn byte_or_zero(s: Seq<u8>, i: int) -> u8 {
    if 0 <= i < s.len() {
        s[i]
    } else {
        0
    }
}

/// The first hash at `idx` from the top of the layers that is not
/// `ZERO_CHUNK_HASH`.
pub open spec fn layered_hash(layers: Seq<IndexView>, idx: int) -> Seq<char>
    decreases layers.len(),
{
    if layers.len() == 0 {
        ZERO_CHUNK_HASH@
    } else if layers[0].hash_at(idx) != ZERO_CHUNK_HASH@ {
        layers[0].hash_at(idx)
    } else {
        layered_hash(layers.drop_first(), idx)
    }
}

/// How much of chunk `idx` a flat file of `flat_len` bytes has.
pub open spec fn piece_len(flat_len: nat, idx: int) -> int {
    if (idx + 1) * CHUNK_SIZE <= flat_len {
        CHUNK_SIZE as int
    } else {
        flat_len - idx * CHUNK_SIZE
    }
}

/// What a flat file has of chunk `idx`.
pub open spec fn piece(flat: Seq<u8>, idx: int) -> Seq<u8> {
    flat.subrange(idx * CHUNK_SIZE, idx * CHUNK_SIZE + piece_len(flat.len(), idx))
}

/// A chunk as it is read from a flat file: one of zeros only is a full chunk of
/// zeros.
pub open spec fn flat_chunk(flat: Seq<u8>, idx: int) -> Seq<u8> {
    if all_zero(piece(flat, idx)) {
        zeros(CHUNK_SIZE as nat)
    } else {
        piece(flat, idx)
    }
}

impl DiskView {
    /// The hash under which chunk `idx` is kept, if it is kept at all.
    pub open spec fn hash_of(self, idx: int) -> Seq<char> {
        layered_hash(self.layers, idx)
    }

    /// Chunk `idx` comes from the flat file.
    pub open spec fn is_flat(self, idx: int) -> bool {
        &&& !self.dirty.contains_key(idx)
        &&& self.hash_of(idx) == ZERO_CHUNK_HASH@
        &&& 0 <= idx
        &&& idx * CHUNK_SIZE < self.flat_len
    }

    /// Chunk `idx` comes from the flat file and is worth keeping in the store.
    pub open spec fn ingestible(self, flat: Seq<u8>, idx: int) -> bool {
        self.is_flat(idx) && !all_zero(piece(flat, idx))
    }

    /// The chunk under a hash. One that is not in the store reads as zeros.
    pub open spec fn chunk_under(self, hash: Seq<char>) -> Seq<u8> {
        if self.contents.contains_key(hash) {
            self.contents[hash]
        } else {
            zeros(CHUNK_SIZE as nat)
        }
    }

    /// Chunk `idx` of the disk.
    pub open spec fn chunk(self, flat: Seq<u8>, idx: int) -> Seq<u8> {
        if self.dirty.contains_key(idx) {
            self.dirty[idx]
        } else if self.hash_of(idx) != ZERO_CHUNK_HASH@ {
            self.chunk_under(self.hash_of(idx))
        } else if self.is_flat(idx) {
            flat_chunk(flat, idx)
        } else {
            zeros(CHUNK_SIZE as nat)
        }
    }

    /// Byte `offset` of the disk.
    pub open spec fn byte(self, flat: Seq<u8>, offset: int) -> u8 {
        byte_or_zero(
            self.chunk(flat, offset / CHUNK_SIZE as int),
            offset % CHUNK_SIZE as int,
        )
    }

    /// The `len` bytes of the disk from `offset` on.
    pub open spec fn bytes(self, flat: Seq<u8>, offset: int, len: nat) -> Seq<u8> {
        Seq::new(len, |i: int| self.byte(flat, offset + i))
    }

    /// Keeping chunks of the flat file in the store cannot change the disk: no
    /// other content stands, or is looked for in vain, under their hashes.
    pub open spec fn stable(self, flat: Seq<u8>) -> bool {
        &&& forall|i: int|
            #[trigger] self.ingestible(flat, i) && self.contents.contains_key(
                blake3_hex(piece(flat, i)),
            ) ==> self.contents[blake3_hex(piece(flat, i))] == piece(flat, i)
        &&& forall|i: int, j: int|
            #[trigger] self.ingestible(flat, i) && #[trigger] self.ingestible(flat, j)
                && blake3_hex(piece(flat, i)) == blake3_hex(piece(flat, j)) ==> piece(flat, i)
                == piece(flat, j)
        &&& forall|i: int, k: int|
            #[trigger] self.ingestible(flat, i) && !self.dirty.contains_key(k)
                && #[trigger] self.hash_of(k) == blake3_hex(piece(flat, i))
                ==> self.contents.contains_key(blake3_hex(piece(flat, i)))
    }
}

/// An index with one hash replaced; past its end nothing is.
pub open spec fn with_hash(v: IndexView, idx: int, hash: Seq<char>) -> IndexView {
    if 0 <= idx < v.hashes.len() {
        IndexView { hashes: v.hashes.update(idx, hash), ..v }
    } else {
        v
    }
}

/// Two disks hold the same chunks.
pub open spec fn same_chunks(a: DiskView, b: DiskView, flat: Seq<u8>) -> bool {
    forall|idx: int| #[trigger] a.chunk(flat, idx) == b.chunk(flat, idx)
}

/// Chunk `idx` has a byte among the `len` bytes from `offset` on.
pub open spec fn touched(offset: int, len: int, idx: int) -> bool {
    len > 0 && offset / CHUNK_SIZE as int <= idx <= (offset + len - 1) / CHUNK_SIZE as int
}

/// The index after the chunks of these bytes that come from the flat file were
/// noted in it.
pub open spec fn ingested_index(v: DiskView, flat: Seq<u8>, offset: int, len: int) -> IndexView {
    IndexView {
        hashes: Seq::new(
            v.layers[0].hashes.len(),
            |k: int|
                if touched(offset, len, k) && v.ingestible(flat, k) {
                    blake3_hex(piece(flat, k))
                } else {
                    v.layers[0].hashes[k]
                },
        ),
        ..v.layers[0]
    }
}

/// A chunk of these bytes that comes from the flat file now stands under
/// `hash`.
pub open spec fn fresh(
    v: DiskView,
    contents: Map<Seq<char>, Seq<u8>>,
    flat: Seq<u8>,
    offset: int,
    len: int,
    hash: Seq<char>,
) -> bool {
    exists|k: int|
        touched(offset, len, k) && #[trigger] v.ingestible(flat, k) && blake3_hex(piece(flat, k))
            == hash && contents.contains_key(hash) && contents[hash] == piece(flat, k)
}

/// The chunks of these bytes that come from the flat file, and are not zeros
/// only, are in the store and noted in the index. Nothing else happened.
pub open spec fn ingested(
    before: DiskView,
    after: DiskView,
    flat: Seq<u8>,
    offset: int,
    len: int,
) -> bool {
    &&& after.dirty == before.dirty
    &&& after.flat_len == before.flat_len
    &&& after.layers == before.layers.update(0, ingested_index(before, flat, offset, len))
    &&& forall|k: int|
        touched(offset, len, k) && #[trigger] before.ingestible(flat, k) ==> {
            &&& blake3_hex(piece(flat, k)).len() == 64
            &&& after.contents.contains_key(blake3_hex(piece(flat, k)))
        }
    &&& forall|h: Seq<char>| #[trigger]
        same_at(before.contents, after.contents, h) || fresh(
            before,
            after.contents,
            flat,
            offset,
            len,
            h,
        )
}

/// All but the hashes of the chunks of these bytes, and the store, is as it
/// was.
pub open spec fn only_noted(before: DiskView, after: DiskView, offset: int, len: int) -> bool {
    &&& after.dirty == before.dirty
    &&& after.flat_len == before.flat_len
    &&& after.layers.len() == before.layers.len()
    &&& after.layers.drop_first() == before.layers.drop_first()
    &&& after.layers[0] == IndexView { hashes: after.layers[0].hashes, ..before.layers[0] }
    &&& after.layers[0].hashes.len() == before.layers[0].hashes.len()
    &&& forall|k: int|
        !touched(offset, len, k) ==> #[trigger] after.layers[0].hash_at(k)
            == before.layers[0].hash_at(k)
}

/// Going on from a chunk boundary, the next bytes up to the end of a chunk touch
/// one more chunk.
pub proof fn lemma_touch_step(offset: int, pos: int, step: int)
    requires
        0 <= offset,
        0 <= pos,
        0 < step,
        (offset + pos) % CHUNK_SIZE as int + step <= CHUNK_SIZE,
        pos == 0 || (offset + pos) % CHUNK_SIZE as int == 0,
    ensures
        !touched(offset, pos, (offset + pos) / CHUNK_SIZE as int),
        forall|k: int| #[trigger]
            touched(offset, pos + step, k) <==> touched(offset, pos, k) || k == (offset + pos)
                / CHUNK_SIZE as int,
{
}

/// Reading one more chunk extends `ingested` by that chunk.
pub proof fn lemma_ingest_step(
    before: DiskView,
    now: DiskView,
    next: DiskView,
    flat: Seq<u8>,
    offset: int,
    pos: int,
    step: int,
    idx: int,
)
    requires
        before.layers.len() > 0,
        ingested(before, now, flat, offset, pos),
        !touched(offset, pos, idx),
        forall|k: int| #[trigger]
            touched(offset, pos + step, k) <==> touched(offset, pos, k) || k == idx,
        next.dirty == now.dirty,
        next.flat_len == now.flat_len,
        if before.ingestible(flat, idx) {
            &&& stored(now.contents, next.contents, piece(flat, idx))
            &&& blake3_hex(piece(flat, idx)).len() == 64
            &&& next.layers == now.layers.update(
                0,
                with_hash(now.layers[0], idx, blake3_hex(piece(flat, idx))),
            )
        } else {
            next == now
        },
    ensures
        ingested(before, next, flat, offset, pos + step),
{
    let h0 = blake3_hex(piece(flat, idx));
    assert(next.layers =~= before.layers.update(
        0,
        ingested_index(before, flat, offset, pos + step),
    )) by {
        assert(next.layers[0].hashes =~= ingested_index(
            before,
            flat,
            offset,
            pos + step,
        ).hashes);
    }
    assert forall|h: Seq<char>| #[trigger]
        same_at(before.contents, next.contents, h) || fresh(
            before,
            next.contents,
            flat,
            offset,
            pos + step,
            h,
        ) by {
        assert(same_at(before.contents, now.contents, h) || fresh(
            before,
            now.contents,
            flat,
            offset,
            pos,
            h,
        ));
        if before.ingestible(flat, idx) {
            assert(same_at(now.contents, next.contents, h) || h == h0);
            if h == h0 && next.contents[h0] == piece(flat, idx) {
                assert(touched(offset, pos + step, idx));
                assert(fresh(before, next.contents, flat, offset, pos + step, h));
            }
        }
        if same_at(now.contents, next.contents, h) && fresh(
            before,
            now.contents,
            flat,
            offset,
            pos,
            h,
        ) {
            let k = choose|k: int|
                touched(offset, pos, k) && #[trigger] before.ingestible(flat, k) && blake3_hex(
                    piece(flat, k),
                ) == h && now.contents.contains_key(h) && now.contents[h] == piece(flat, k);
            assert(touched(offset, pos + step, k));
        }
    }
    assert forall|k: int|
        touched(offset, pos + step, k) && #[trigger] before.ingestible(flat, k) implies {
        &&& blake3_hex(piece(flat, k)).len() == 64
        &&& next.contents.contains_key(blake3_hex(piece(flat, k)))
    } by {
        if k != idx {
            assert(touched(offset, pos, k));
            if before.ingestible(flat, idx) && blake3_hex(piece(flat, k)) != h0 {
                assert(same_at(now.contents, next.contents, blake3_hex(piece(flat, k))));
            }
        }
    }
}

/// No hash of hexadecimal length is `ZERO_CHUNK_HASH`.
pub proof fn lemma_hash_is_not_zero(hash: Seq<char>)
    requires
        hash.len() == 64,
    ensures
        hash != ZERO_CHUNK_HASH@,
{
    reveal_strlit("ZERO");
}

/// The layers after `ingested_index` give the noted hash where one was noted
/// and the former hash everywhere else.
pub proof fn lemma_ingested_hash(
    v: DiskView,
    flat: Seq<u8>,
    offset: int,
    len: int,
    idx: int,
)
    requires
        v.layers.len() > 0,
        forall|k: int|
            touched(offset, len, k) && #[trigger] v.ingestible(flat, k) ==> blake3_hex(
                piece(flat, k),
            ).len() == 64,
    ensures
        layered_hash(v.layers.update(0, ingested_index(v, flat, offset, len)), idx) == if touched(
            offset,
            len,
            idx,
        ) && v.ingestible(flat, idx) && 0 <= idx < v.layers[0].hashes.len() {
            blake3_hex(piece(flat, idx))
        } else {
            v.hash_of(idx)
        },
{
    let updated = v.layers.update(0, ingested_index(v, flat, offset, len));
    assert(updated.drop_first() =~= v.layers.drop_first());
    if touched(offset, len, idx) && v.ingestible(flat, idx) {
        lemma_hash_is_not_zero(blake3_hex(piece(flat, idx)));
    }
}

/// Ingestion is invisible: keeping chunks of the flat file in the store changes
/// no chunk of a stable disk, and the disk stays stable.
pub proof fn law_ingestion_is_invisible(
    before: DiskView,
    after: DiskView,
    flat: Seq<u8>,
    offset: int,
    len: int,
)
    requires
        before.layers.len() > 0,
        before.stable(flat),
        ingested(before, after, flat, offset, len),
    ensures
        same_chunks(before, after, flat),
        after.stable(flat),
{
    assert forall|k: int| true implies #[trigger] after.hash_of(k) == if touched(offset, len, k)
        && before.ingestible(flat, k) && 0 <= k < before.layers[0].hashes.len() {
        blake3_hex(piece(flat, k))
    } else {
        before.hash_of(k)
    } by {
        lemma_ingested_hash(before, flat, offset, len, k);
    }
    assert forall|k: int| #[trigger] before.chunk(flat, k) == after.chunk(flat, k) by {
        let noted = touched(offset, len, k) && before.ingestible(flat, k) && 0 <= k
            < before.layers[0].hashes.len();
        let h = after.hash_of(k);
        assert(h == if noted {
            blake3_hex(piece(flat, k))
        } else {
            before.hash_of(k)
        });
        if noted {
            lemma_hash_is_not_zero(h);
        }
        assert(same_at(before.contents, after.contents, h) || fresh(
            before,
            after.contents,
            flat,
            offset,
            len,
            h,
        ));
    }
    assert forall|k: int| #[trigger] after.ingestible(flat, k) implies before.ingestible(
        flat,
        k,
    ) by {
        assert(after.hash_of(k) == ZERO_CHUNK_HASH@);
        if touched(offset, len, k) && before.ingestible(flat, k) {
            lemma_hash_is_not_zero(blake3_hex(piece(flat, k)));
        }
    }
    assert forall|k: int|
        #[trigger] after.ingestible(flat, k) && after.contents.contains_key(
            blake3_hex(piece(flat, k)),
        ) implies after.contents[blake3_hex(piece(flat, k))] == piece(flat, k) by {
        assert(before.ingestible(flat, k));
        assert(same_at(before.contents, after.contents, blake3_hex(piece(flat, k))) || fresh(
            before,
            after.contents,
            flat,
            offset,
            len,
            blake3_hex(piece(flat, k)),
        ));
    }
    assert forall|i: int, k: int|
        #[trigger] after.ingestible(flat, i) && !after.dirty.contains_key(k)
            && #[trigger] after.hash_of(k) == blake3_hex(
            piece(flat, i),
        ) implies after.contents.contains_key(blake3_hex(piece(flat, i))) by {
        assert(before.ingestible(flat, i));
        let h = blake3_hex(piece(flat, i));
        assert(same_at(before.contents, after.contents, h) || fresh(
            before,
            after.contents,
            flat,
            offset,
            len,
            h,
        ));
        if !(touched(offset, len, k) && before.ingestible(flat, k)) {
            assert(before.hash_of(k) == after.hash_of(k));
        }
    }
}

/// The hash of chunk `k` after the chunks of these bytes that come from the flat
/// file were noted.
pub open spec fn noted_hash(v: DiskView, flat: Seq<u8>, offset: int, len: int, k: int) -> Seq<char> {
    if touched(offset, len, k) && v.ingestible(flat, k) && 0 <= k < v.layers[0].hashes.len() {
        blake3_hex(piece(flat, k))
    } else {
        v.hash_of(k)
    }
}

/// Keeping the chunks of these bytes in the store cannot change chunk `k`: those
/// that go under its hash are what it holds, and so is what stands there.
pub open spec fn undisturbed(v: DiskView, flat: Seq<u8>, offset: int, len: int, k: int) -> bool {
    v.dirty.contains_key(k) || forall|j: int|
        touched(offset, len, j) && #[trigger] v.ingestible(flat, j) && blake3_hex(piece(flat, j))
            == noted_hash(v, flat, offset, len, k) && blake3_hex(piece(flat, j))
            != ZERO_CHUNK_HASH@ ==> {
            &&& piece(flat, j) == v.chunk(flat, k)
            &&& v.contents.contains_key(blake3_hex(piece(flat, j)))
                ==> v.contents[blake3_hex(piece(flat, j))] == v.chunk(flat, k)
        }
}

/// How many of the bytes from `offset` on come before chunk `k`.
pub open spec fn before_chunk(offset: int, k: int) -> int {
    if k * CHUNK_SIZE > offset {
        k * CHUNK_SIZE - offset
    } else {
        0
    }
}

/// No chunk of these bytes is changed by keeping the ones before it in the store.
pub open spec fn exact(v: DiskView, flat: Seq<u8>, offset: int, len: int) -> bool {
    forall|k: int| #[trigger]
        touched(offset, len, k) ==> undisturbed(v, flat, offset, before_chunk(offset, k), k)
}

/// On a stable disk no chunk is ever disturbed.
pub proof fn lemma_stable_is_undisturbed(
    v: DiskView,
    flat: Seq<u8>,
    offset: int,
    len: int,
    k: int,
)
    requires
        v.stable(flat),
    ensures
        undisturbed(v, flat, offset, len, k),
{
    if !v.dirty.contains_key(k) {
        let h = noted_hash(v, flat, offset, len, k);
        assert forall|j: int|
            touched(offset, len, j) && #[trigger] v.ingestible(flat, j) && blake3_hex(
                piece(flat, j),
            ) == h && h != ZERO_CHUNK_HASH@ implies {
            &&& piece(flat, j) == v.chunk(flat, k)
            &&& v.contents.contains_key(h) ==> v.contents[h] == v.chunk(flat, k)
        } by {
            if v.ingestible(flat, k) {
                assert(piece(flat, j) == piece(flat, k));
            } else {
                assert(v.hash_of(k) == h);
            }
        }
    }
}

/// What is undisturbed by some bytes is undisturbed by fewer of them.
pub proof fn lemma_undisturbed_within(
    v: DiskView,
    flat: Seq<u8>,
    offset: int,
    len: int,
    inner: int,
    inner_len: int,
    k: int,
)
    requires
        undisturbed(v, flat, offset, len, k),
        forall|j: int| #[trigger] touched(inner, inner_len, j) ==> touched(offset, len, j),
    ensures
        undisturbed(v, flat, inner, inner_len, k),
{
}

/// A chunk that is not disturbed is not changed by ingestion.
pub proof fn law_ingestion_keeps_undisturbed_chunks(
    before: DiskView,
    after: DiskView,
    flat: Seq<u8>,
    offset: int,
    len: int,
    k: int,
)
    requires
        before.layers.len() > 0,
        ingested(before, after, flat, offset, len),
        undisturbed(before, flat, offset, len, k),
    ensures
        after.chunk(flat, k) == before.chunk(flat, k),
        after.hash_of(k) == noted_hash(before, flat, offset, len, k),
{
    lemma_ingested_hash(before, flat, offset, len, k);
    let h = noted_hash(before, flat, offset, len, k);
    assert(after.hash_of(k) == h);
    if !before.dirty.contains_key(k) {
        let noted = touched(offset, len, k) && before.ingestible(flat, k) && 0 <= k
            < before.layers[0].hashes.len();
        if noted {
            lemma_hash_is_not_zero(h);
        }
        if h != ZERO_CHUNK_HASH@ {
            assert(same_at(before.contents, after.contents, h) || fresh(
                before,
                after.contents,
                flat,
                offset,
                len,
                h,
            ));
        }
    }
}

/// A read gives the same after another read as before it: keeping chunks in the
/// store changes none of these bytes and makes no later read of them any less
/// exact. Both reads are anywhere among the `total` bytes from `offset` on.
pub proof fn law_read_again_gives_the_same(
    before: DiskView,
    after: DiskView,
    flat: Seq<u8>,
    offset: int,
    total: int,
    first: int,
    first_len: int,
    second: int,
    second_len: nat,
)
    requires
        before.layers.len() > 0,
        0 <= offset <= first,
        0 <= first_len,
        first + first_len <= offset + total,
        offset <= second,
        second + second_len <= offset + total,
        forall|k: int| #[trigger]
            touched(offset, total, k) ==> undisturbed(before, flat, offset, total, k),
        ingested(before, after, flat, first, first_len),
    ensures
        exact(before, flat, second, second_len as int),
        exact(after, flat, second, second_len as int),
        after.bytes(flat, second, second_len) == before.bytes(flat, second, second_len),
{
    assert forall|j: int| #[trigger] touched(first, first_len, j) implies touched(
        offset,
        total,
        j,
    ) by {}
    assert forall|j: int| #[trigger] touched(second, second_len as int, j) implies touched(
        offset,
        total,
        j,
    ) by {}
    assert forall|k: int| #[trigger] touched(second, second_len as int, k) implies {
        &&& undisturbed(before, flat, second, before_chunk(second, k), k)
        &&& undisturbed(after, flat, second, before_chunk(second, k), k)
        &&& after.chunk(flat, k) == before.chunk(flat, k)
    } by {
        let l = before_chunk(second, k);
        assert(touched(offset, total, k));
        assert forall|j: int| #[trigger] touched(second, l, j) implies touched(
            offset,
            total,
            j,
        ) && j < k by {}
        lemma_undisturbed_within(before, flat, offset, total, second, l, k);
        lemma_undisturbed_within(before, flat, offset, total, first, first_len, k);
        law_ingestion_keeps_undisturbed_chunks(before, after, flat, first, first_len, k);
        if !before.dirty.contains_key(k) {
            let h = noted_hash(after, flat, second, l, k);
            assert(!touched(second, l, k));
            assert(h == after.hash_of(k));
            assert forall|j: int|
                touched(second, l, j) && #[trigger] after.ingestible(flat, j) && blake3_hex(
                    piece(flat, j),
                ) == h && h != ZERO_CHUNK_HASH@ implies {
                &&& piece(flat, j) == after.chunk(flat, k)
                &&& after.contents.contains_key(h) ==> after.contents[h] == after.chunk(flat, k)
            } by {
                lemma_ingested_hash(before, flat, first, first_len, j);
                if touched(first, first_len, j) && before.ingestible(flat, j) {
                    lemma_hash_is_not_zero(blake3_hex(piece(flat, j)));
                }
                assert(before.ingestible(flat, j));
                assert(h == noted_hash(before, flat, offset, total, k));
            }
        }
    }
    assert forall|i: int| 0 <= i < second_len implies #[trigger] after.byte(flat, second + i)
        == before.byte(flat, second + i) by {
        assert(touched(second, second_len as int, (second + i) / CHUNK_SIZE as int));
    }
    assert(after.bytes(flat, second, second_len) =~= before.bytes(flat, second, second_len));
}

/// A read may be split anywhere: reading `m` bytes and then the `n` bytes after
/// them gives what one read of `m + n` bytes gives, wherever chunks end.
pub proof fn law_read_splits(
    before: DiskView,
    between: DiskView,
    flat: Seq<u8>,
    offset: int,
    m: nat,
    n: nat,
)
    requires
        before.layers.len() > 0,
        0 <= offset,
        forall|k: int| #[trigger]
            touched(offset, (m + n) as int, k) ==> undisturbed(
                before,
                flat,
                offset,
                (m + n) as int,
                k,
            ),
        ingested(before, between, flat, offset, m as int),
    ensures
        exact(before, flat, offset, (m + n) as int),
        exact(before, flat, offset, m as int),
        exact(between, flat, offset + m, n as int),
        before.bytes(flat, offset, m + n) == before.bytes(flat, offset, m) + between.bytes(
            flat,
            offset + m,
            n,
        ),
{
    let total = (m + n) as int;
    law_read_again_gives_the_same(
        before,
        between,
        flat,
        offset,
        total,
        offset,
        m as int,
        offset,
        m + n,
    );
    law_read_again_gives_the_same(
        before,
        between,
        flat,
        offset,
        total,
        offset,
        m as int,
        offset + m,
        n,
    );
    assert forall|k: int| #[trigger] touched(offset, m as int, k) implies undisturbed(
        before,
        flat,
        offset,
        before_chunk(offset, k),
        k,
    ) by {
        assert(touched(offset, total, k));
    }
    assert(before.bytes(flat, offset, m + n) =~= before.bytes(flat, offset, m) + before.bytes(
        flat,
        offset + m,
        n,
    ));
}

/// The disk was extended: its index goes on to the new size, and the chunks that
/// it has gained are still to be asked for.
pub open spec fn extended(before: DiskView, after: DiskView, new_size: nat) -> bool {
    &&& after == DiskView { layers: before.layers.update(0, after.layers[0]), ..before }
    &&& after.layers[0].wf()
    &&& after.layers[0] == IndexView {
        disk_size: if new_size > before.layers[0].disk_size {
            new_size
        } else {
            before.layers[0].disk_size
        },
        hashes: after.layers[0].hashes,
        ..before.layers[0]
    }
    &&& forall|k: int| #[trigger] after.layers[0].hash_at(k) == before.layers[0].hash_at(k)
}

/// Extending keeps the disk: every chunk and every byte is as it was, unsaved
/// ones and all, and so is the store.
pub proof fn law_extending_keeps_the_disk(
    before: DiskView,
    after: DiskView,
    new_size: nat,
    flat: Seq<u8>,
)
    requires
        before.layers.len() > 0,
        extended(before, after, new_size),
    ensures
        same_chunks(before, after, flat),
        forall|offset: int, len: nat| #[trigger]
            after.bytes(flat, offset, len) == before.bytes(flat, offset, len),
        after.contents == before.contents,
{
    assert(after.layers.drop_first() =~= before.layers.drop_first());
    assert forall|k: int| #[trigger] before.chunk(flat, k) == after.chunk(flat, k) by {
        assert(after.layers[0].hash_at(k) == before.layers[0].hash_at(k));
        assert(after.hash_of(k) == before.hash_of(k));
    }
    assert forall|offset: int, len: nat| #[trigger]
        after.bytes(flat, offset, len) == before.bytes(flat, offset, len) by {
        assert forall|i: int| 0 <= i < len implies #[trigger] after.byte(flat, offset + i)
            == before.byte(
            flat,
            offset + i,
        ) by {
            let k = (offset + i) / CHUNK_SIZE as int;
            assert(before.chunk(flat, k) == after.chunk(flat, k));
        }
        assert(after.bytes(flat, offset, len) =~= before.bytes(flat, offset, len));
    }
}

/// What a byte of a disk is. In a chunk that was written it is what was written. In
/// any other chunk it is what the store has under the first hash, from the disk's own
/// index down through its parents, that is not the sign for "ask the parent". Where
/// there is no such hash the flat file shows through. And what none of these has is
/// zero.
pub proof fn law_what_a_byte_is(v: DiskView, flat: Seq<u8>, k: int, j: int, i: int)
    requires
        0 <= k,
        0 <= j < 65536,
        v.flat_len == flat.len(),
    ensures
        ({
            let o = k * 65536 + j;
            let b = v.byte(flat, o);
            let in_chunk = |s: Seq<u8>| if j < s.len() { s[j] } else { 0u8 };
            let silent = |layer: IndexView|
                k >= layer.hashes.len() || layer.hashes[k] == "ZERO"@;
            &&& v.dirty.contains_key(k) ==> b == in_chunk(v.dirty[k])
            &&& !v.dirty.contains_key(k) && 0 <= i < v.layers.len() && !silent(v.layers[i]) && (
            forall|m: int| 0 <= m < i ==> silent(#[trigger] v.layers[m])) ==> {
                let hash = v.layers[i].hashes[k];
                b == if v.contents.contains_key(hash) {
                    in_chunk(v.contents[hash])
                } else {
                    0u8
                }
            }
            &&& !v.dirty.contains_key(k) && (forall|m: int|
                0 <= m < v.layers.len() ==> silent(#[trigger] v.layers[m])) ==> b == if o
                < flat.len() {
                flat[o]
            } else {
                0u8
            }
        }),
{
    let o = k * 65536 + j;
    assert(o / CHUNK_SIZE as int == k);
    assert(o % CHUNK_SIZE as int == j);
    let silent = |layer: IndexView| k >= layer.hashes.len() || layer.hashes[k] == "ZERO"@;
    if 0 <= i < v.layers.len() && !silent(v.layers[i]) && (forall|m: int|
        0 <= m < i ==> silent(#[trigger] v.layers[m])) {
        lemma_first_hash(v.layers, k, i);
    }
    if forall|m: int| 0 <= m < v.layers.len() ==> silent(#[trigger] v.layers[m]) {
        lemma_no_hash(v.layers, k);
        if o < flat.len() {
            let p = piece(flat, k);
            assert(p[j] == flat[o]);
        }
    }
}

/// The first layer that has a hash for a chunk decides.
proof fn lemma_first_hash(layers: Seq<IndexView>, k: int, i: int)
    requires
        0 <= k,
        0 <= i < layers.len(),
        k < layers[i].hashes.len(),
        layers[i].hashes[k] != ZERO_CHUNK_HASH@,
        forall|m: int|
            0 <= m < i ==> k >= (#[trigger] layers[m]).hashes.len() || layers[m].hashes[k]
                == ZERO_CHUNK_HASH@,
    ensures
        layered_hash(layers, k) == layers[i].hashes[k],
    decreases i,
{
    if i > 0 {
        let rest = layers.drop_first();
        assert forall|m: int| 0 <= m < i - 1 implies k >= (#[trigger] rest[m]).hashes.len()
            || rest[m].hashes[k] == ZERO_CHUNK_HASH@ by {
            assert(rest[m] == layers[m + 1]);
        }
        assert(rest[i - 1] == layers[i]);
        lemma_first_hash(rest, k, i - 1);
        assert(k >= layers[0].hashes.len() || layers[0].hashes[k] == ZERO_CHUNK_HASH@);
    }
}

/// Without a hash in any layer there is none.
pub proof fn lemma_no_hash(layers: Seq<IndexView>, k: int)
    requires
        0 <= k,
        forall|m: int|
            0 <= m < layers.len() ==> k >= (#[trigger] layers[m]).hashes.len()
                || layers[m].hashes[k] == ZERO_CHUNK_HASH@,
    ensures
        layered_hash(layers, k) == ZERO_CHUNK_HASH@,
    decreases layers.len(),
{
    if layers.len() > 0 {
        let rest = layers.drop_first();
        assert forall|m: int| 0 <= m < rest.len() implies k >= (#[trigger] rest[m]).hashes.len()
            || rest[m].hashes[k] == ZERO_CHUNK_HASH@ by {
            assert(rest[m] == layers[m + 1]);
        }
        lemma_no_hash(rest, k);
        assert(k >= layers[0].hashes.len() || layers[0].hashes[k] == ZERO_CHUNK_HASH@);
    }
}

/// A run of bytes is made of the bytes, one after the other.
pub proof fn law_what_bytes_are(v: DiskView, flat: Seq<u8>, offset: int, len: nat, i: int)
    requires
        0 <= i < len,
    ensures
        v.bytes(flat, offset, len).len() == len,
        v.bytes(flat, offset, len)[i] == v.byte(flat, offset + i),
{
}

/// A disk with nothing unsaved and no hash shows its flat file, and zeros behind it.
pub proof fn law_flat_file_shows_through(v: DiskView, flat: Seq<u8>, o: int)
    requires
        0 <= o,
        v.flat_len == flat.len(),
        !v.dirty.contains_key(o / 65536),
        forall|m: int|
            0 <= m < v.layers.len() ==> o / 65536 >= (#[trigger] v.layers[m]).hashes.len()
                || v.layers[m].hashes[o / 65536] == "ZERO"@,
    ensures
        v.byte(flat, o) == if o < flat.len() {
            flat[o]
        } else {
            0u8
        },
{
    let (k, j) = (o / 65536, o % 65536);
    law_what_a_byte_is(v, flat, k, j, 0);
    let silent = |layer: IndexView| k >= layer.hashes.len() || layer.hashes[k] == "ZERO"@;
    assert forall|m: int| 0 <= m < v.layers.len() implies silent(#[trigger] v.layers[m]) by {}
    assert(k * 65536 + j == o);
}

} // verus!
