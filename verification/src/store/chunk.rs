//! Chunk stores: chunks kept under the hash of their content.

use vstd::prelude::*;

use crate::text::{concat, join_path};

verus! {

use crate::text::joined;

/// The BLAKE3 hash of `data` in lowercase hexadecimal, as `blake3::hash` and
/// `Hash::to_hex` give it.
pub uninterp spec fn blake3_hex(data: Seq<u8>) -> Seq<char>;

/// Hashes with `blake3::hash` and spells the hash with `Hash::to_hex`, which
/// gives two lowercase hexadecimal digits for each of the 32 bytes.
#[verifier::external_body]
pub(crate) fn hash_hex(data: &[u8]) -> (r: String)
    ensures
        r@ == blake3_hex(data@),
        r@.len() == 64,
        forall|i: int| 0 <= i < 64 ==> is_hex_digit(#[trigger] r@[i]),
{
    blake3::hash(data).to_hex().to_string()
}

/// A lowercase hexadecimal digit.
pub open spec fn is_hex_digit(c: char) -> bool {
    '0' <= c <= '9' || 'a' <= c <= 'f'
}

/// A hash as it names a chunk: sixty-four lowercase hexadecimal digits.
pub open spec fn is_hash(h: Seq<char>) -> bool {
    h.len() == 64 && forall|i: int| 0 <= i < 64 ==> is_hex_digit(#[trigger] h[i])
}

/// Two stores hold the same, or nothing, under `hash`.
pub open spec fn same_at(
    a: Map<Seq<char>, Seq<u8>>,
    b: Map<Seq<char>, Seq<u8>>,
    hash: Seq<char>,
) -> bool {
    &&& a.contains_key(hash) == b.contains_key(hash)
    &&& a.contains_key(hash) ==> a[hash] == b[hash]
}

/// What putting `data` does to the chunks of a store: under the hash of `data`
/// there is now a chunk, either `data` or the one that was there before, and
/// everything else is as it was.
pub open spec fn stored(
    before: Map<Seq<char>, Seq<u8>>,
    after: Map<Seq<char>, Seq<u8>>,
    data: Seq<u8>,
) -> bool {
    &&& after.contains_key(blake3_hex(data))
    &&& after[blake3_hex(data)] == data || same_at(before, after, blake3_hex(data))
    &&& same_elsewhere(before, after, data)
}

/// Nothing but the chunk under the hash of `data` differs.
pub open spec fn same_elsewhere(
    before: Map<Seq<char>, Seq<u8>>,
    after: Map<Seq<char>, Seq<u8>>,
    data: Seq<u8>,
) -> bool {
    forall|h: Seq<char>| h != blake3_hex(data) ==> #[trigger] same_at(before, after, h)
}

/// What was put is there to be got, unless another chunk stood under its hash.
pub proof fn law_put_is_got(
    before: Map<Seq<char>, Seq<u8>>,
    after: Map<Seq<char>, Seq<u8>>,
    data: Seq<u8>,
)
    requires
        stored(before, after, data),
        before.contains_key(blake3_hex(data)) ==> before[blake3_hex(data)] == data,
    ensures
        after.contains_key(blake3_hex(data)),
        after[blake3_hex(data)] == data,
{
}

/// Chunks are kept once: putting a chunk that is there changes nothing.
pub proof fn law_put_again_changes_nothing(
    before: Map<Seq<char>, Seq<u8>>,
    after: Map<Seq<char>, Seq<u8>>,
    data: Seq<u8>,
)
    requires
        stored(before, after, data),
        before.contains_key(blake3_hex(data)),
        before[blake3_hex(data)] == data,
    ensures
        after == before,
{
    assert forall|h: Seq<char>| #[trigger] same_at(before, after, h) by {}
    assert forall|h: Seq<char>| after.contains_key(h) == before.contains_key(h) by {
        assert(same_at(before, after, h));
    }
    assert forall|h: Seq<char>| after.contains_key(h) implies after[h] == before[h] by {
        assert(same_at(before, after, h));
    }
    assert(after =~= before);
}

/// A call of `ChunkStore::put`: what was handed over and what came back.
pub struct PutCall {
    pub data: Seq<u8>,
    pub reply: Result<Seq<char>, Seq<char>>,
}

/// The call that handed over `data` and gave `reply`.
pub open spec fn put_call(data: Seq<u8>, reply: Result<String, String>) -> PutCall {
    PutCall {
        data,
        reply: match reply {
            Ok(hash) => Ok(hash@),
            Err(e) => Err(e@),
        },
    }
}

/// Content-addressable chunk storage. Implement it for a file system, for
/// object storage, or for any other place.
///
/// What the methods promise of the contents holds only while nobody else changes
/// the store. Sandboxes may share one: of the chunks that others put or remove
/// meanwhile nothing is said.
pub trait ChunkStore: Send + Sync {
    /// The chunks in the store, by hash. Code that is not verified has no need
    /// to say what they are.
    closed spec fn contents(&self) -> Map<Seq<char>, Seq<u8>> {
        vstd::pervasive::arbitrary()
    }

    /// The calls of `put` that were made so far. Code that is not verified has no
    /// need to keep them.
    closed spec fn puts(&self) -> Seq<PutCall> {
        vstd::pervasive::arbitrary()
    }

    /// Stores a chunk and returns its BLAKE3 hash in hexadecimal, or says why
    /// it could not be stored. A store may keep an equal-hash chunk that it
    /// already has.
    fn put(&mut self, data: &[u8]) -> (r: Result<String, String>)
        ensures
            final(self).puts() == old(self).puts().push(put_call(data@, r)),
            match r {
                Ok(hash) => {
                    &&& hash@ == blake3_hex(data@)
                    &&& hash@.len() == 64
                    &&& stored(old(self).contents(), final(self).contents(), data@)
                },
                Err(_) => same_elsewhere(old(self).contents(), final(self).contents(), data@),
            },
    ;

    /// Reads a chunk by hash: `None` if there is none, an error if it could not
    /// be read.
    fn get(&self, hash: &str) -> (r: Result<Option<Vec<u8>>, String>)
        ensures
            match r {
                Ok(Some(data)) => self.contents().contains_key(hash@) && data@
                    == self.contents()[hash@],
                Ok(None) => !self.contents().contains_key(hash@),
                Err(_) => true,
            },
    ;
}

/// Where a chunk goes in a local store.
pub struct ChunkFile {
    pub hash: String,
    pub path: String,
}

/// How the creation of a chunk file went.
pub enum CreateOutcome {
    /// The file was created and the chunk written to it.
    Written,
    /// There was a file of that name already.
    AlreadyExists,
    /// The file could not be created; why.
    CreateFailed(String),
    /// The file was created and the chunk could not be written to it; why.
    WriteFailed(String),
}

/// How the reading of a chunk file went.
pub enum ReadOutcome {
    /// The bytes of the file.
    Data(Vec<u8>),
    /// There is no such file.
    NotFound,
    /// The file could not be read; why.
    Failed(String),
}

/// What a local store failed at, and what was reported of it.
pub struct ChunkFailure {
    pub message: String,
    pub cause: String,
}

/// A chunk store in a local directory: one file for each chunk, named by hash.
pub struct LocalChunkStore {
    pub chunks_dir: String,
}

impl LocalChunkStore {
    /// The store below `cas_dir`.
    pub fn open(cas_dir: &str) -> (r: Self)
        ensures
            r.chunks_dir@ == joined(cas_dir@, "chunks"@),
    {
        LocalChunkStore { chunks_dir: join_path(cas_dir, "chunks") }
    }

    /// The file that holds the chunk with this hash.
    pub fn chunk_path(&self, hash: &str) -> (r: String)
        ensures
            r@ == joined(self.chunks_dir@, hash@),
    {
        join_path(self.chunks_dir.as_str(), hash)
    }

    /// The hash of a chunk, and the file that is to hold it. The file is to be
    /// created anew and is left alone where it exists.
    pub fn put(&self, data: &[u8]) -> (r: ChunkFile)
        ensures
            r.hash@ == blake3_hex(data@),
            is_hash(r.hash@),
            r.path@ == joined(self.chunks_dir@, r.hash@),
    {
        let hash = hash_hex(data);
        let path = self.chunk_path(hash.as_str());
        ChunkFile { hash, path }
    }

    /// What putting a chunk comes to, once its file was tried.
    pub fn put_result(file: ChunkFile, outcome: CreateOutcome) -> (r: Result<
        String,
        ChunkFailure,
    >)
        ensures
            match outcome {
                CreateOutcome::Written | CreateOutcome::AlreadyExists => r matches Ok(hash)
                    && hash@ == file.hash@,
                CreateOutcome::CreateFailed(cause) => r matches Err(e) && e.message@
                    == "failed to create chunk "@ + file.hash@ && e.cause == cause,
                CreateOutcome::WriteFailed(cause) => r matches Err(e) && e.message@
                    == "failed to write chunk "@ + file.hash@ && e.cause == cause,
            },
    {
        match outcome {
            CreateOutcome::Written => Ok(file.hash),
            CreateOutcome::AlreadyExists => Ok(file.hash),
            CreateOutcome::CreateFailed(cause) => {
                let message = concat("failed to create chunk ", file.hash.as_str());
                Err(ChunkFailure { message, cause })
            },
            CreateOutcome::WriteFailed(cause) => {
                let message = concat("failed to write chunk ", file.hash.as_str());
                Err(ChunkFailure { message, cause })
            },
        }
    }

    /// What getting a chunk comes to, once its file was read.
    pub fn get_result(hash: &str, outcome: ReadOutcome) -> (r: Result<
        Option<Vec<u8>>,
        ChunkFailure,
    >)
        ensures
            match outcome {
                ReadOutcome::Data(data) => r == Ok::<Option<Vec<u8>>, ChunkFailure>(Some(data)),
                ReadOutcome::NotFound => r == Ok::<Option<Vec<u8>>, ChunkFailure>(None),
                ReadOutcome::Failed(cause) => r matches Err(e) && e.message@
                    == "failed to read chunk "@ + hash@ && e.cause == cause,
            },
    {
        match outcome {
            ReadOutcome::Data(data) => Ok(Some(data)),
            ReadOutcome::NotFound => Ok(None),
            ReadOutcome::Failed(cause) => {
                let message = concat("failed to read chunk ", hash);
                Err(ChunkFailure { message, cause })
            },
        }
    }
}

/// The chunks in a directory whose files are `files`, by hash.
pub open spec fn local_contents(
    chunks_dir: Seq<char>,
    files: Map<Seq<char>, Seq<u8>>,
) -> Map<Seq<char>, Seq<u8>> {
    Map::new(
        |h: Seq<char>| is_hash(h) && files.contains_key(joined(chunks_dir, h)),
        |h: Seq<char>| files[joined(chunks_dir, h)],
    )
}

/// The files after a chunk was put: a file that is there is left alone.
pub open spec fn files_after_put(
    chunks_dir: Seq<char>,
    files: Map<Seq<char>, Seq<u8>>,
    data: Seq<u8>,
) -> Map<Seq<char>, Seq<u8>> {
    let path = joined(chunks_dir, blake3_hex(data));
    if files.contains_key(path) {
        files
    } else {
        files.insert(path, data)
    }
}

/// The files after chunks were put one after the other into an empty directory.
pub open spec fn files_after_puts(chunks_dir: Seq<char>, puts: Seq<Seq<u8>>) -> Map<
    Seq<char>,
    Seq<u8>,
>
    decreases puts.len(),
{
    if puts.len() == 0 {
        Map::empty()
    } else {
        files_after_put(chunks_dir, files_after_puts(chunks_dir, puts.drop_last()), puts.last())
    }
}

/// Different hashes name different files.
pub proof fn law_hashes_name_different_files(chunks_dir: Seq<char>, a: Seq<char>, b: Seq<char>)
    requires
        is_hash(a),
        is_hash(b),
        joined(chunks_dir, a) == joined(chunks_dir, b),
    ensures
        a == b,
{
    assert(is_hex_digit(a[0]) && is_hex_digit(b[0]));
    let pre = if chunks_dir.len() == 0 || chunks_dir.last() == '/' {
        chunks_dir
    } else {
        chunks_dir + seq!['/']
    };
    assert(joined(chunks_dir, a).skip(pre.len() as int) =~= a);
    assert(joined(chunks_dir, b).skip(pre.len() as int) =~= b);
}

/// Putting a chunk into a local store stores it: its file holds it, a file that
/// was there keeps what it holds, and no other chunk changes.
pub proof fn law_local_put_stores(
    chunks_dir: Seq<char>,
    files: Map<Seq<char>, Seq<u8>>,
    data: Seq<u8>,
)
    requires
        is_hash(blake3_hex(data)),
    ensures
        stored(
            local_contents(chunks_dir, files),
            local_contents(chunks_dir, files_after_put(chunks_dir, files, data)),
            data,
        ),
        local_contents(chunks_dir, files).contains_key(blake3_hex(data)) ==> local_contents(
            chunks_dir,
            files_after_put(chunks_dir, files, data),
        ) == local_contents(chunks_dir, files),
{
    let before = local_contents(chunks_dir, files);
    let after = local_contents(chunks_dir, files_after_put(chunks_dir, files, data));
    assert forall|h: Seq<char>| h != blake3_hex(data) implies #[trigger] same_at(
        before,
        after,
        h,
    ) by {
        if is_hash(h) && joined(chunks_dir, h) == joined(chunks_dir, blake3_hex(data)) {
            law_hashes_name_different_files(chunks_dir, h, blake3_hex(data));
        }
    }
}

/// What was put into a local store is got: after chunks were put into an empty
/// directory, each is found under its hash, and under any other hash nothing is.
/// Two different chunks of one hash are out of this: the first of them stays.
pub proof fn law_local_puts_are_got(chunks_dir: Seq<char>, puts: Seq<Seq<u8>>)
    requires
        forall|i: int| 0 <= i < puts.len() ==> is_hash(blake3_hex(#[trigger] puts[i])),
        forall|i: int, j: int|
            0 <= i < puts.len() && 0 <= j < puts.len() && blake3_hex(#[trigger] puts[i])
                == blake3_hex(#[trigger] puts[j]) ==> puts[i] == puts[j],
    ensures
        forall|i: int|
            #![trigger puts[i]]
            0 <= i < puts.len() ==> {
                let contents = local_contents(chunks_dir, files_after_puts(chunks_dir, puts));
                &&& contents.contains_key(blake3_hex(puts[i]))
                &&& contents[blake3_hex(puts[i])] == puts[i]
            },
        forall|h: Seq<char>| #[trigger]
            local_contents(chunks_dir, files_after_puts(chunks_dir, puts)).contains_key(h)
                ==> exists|i: int| 0 <= i < puts.len() && blake3_hex(#[trigger] puts[i]) == h,
    decreases puts.len(),
{
    if puts.len() > 0 {
        let rest = puts.drop_last();
        let data = puts.last();
        assert forall|i: int| 0 <= i < rest.len() implies is_hash(blake3_hex(#[trigger] rest[i])) by {
            assert(rest[i] == puts[i]);
        }
        assert forall|i: int, j: int|
            0 <= i < rest.len() && 0 <= j < rest.len() && blake3_hex(#[trigger] rest[i])
                == blake3_hex(#[trigger] rest[j]) implies rest[i] == rest[j] by {
            assert(rest[i] == puts[i] && rest[j] == puts[j]);
        }
        law_local_puts_are_got(chunks_dir, rest);
        let files = files_after_puts(chunks_dir, rest);
        let before = local_contents(chunks_dir, files);
        let after = local_contents(chunks_dir, files_after_puts(chunks_dir, puts));
        assert(puts[puts.len() - 1] == data);
        assert(is_hash(blake3_hex(data)));
        law_local_put_stores(chunks_dir, files, data);
        assert(before.contains_key(blake3_hex(data)) ==> before[blake3_hex(data)] == data) by {
            if before.contains_key(blake3_hex(data)) {
                let i = choose|i: int|
                    0 <= i < rest.len() && blake3_hex(#[trigger] rest[i]) == blake3_hex(data);
                assert(rest[i] == puts[i]);
                assert(before[blake3_hex(rest[i])] == rest[i]);
            }
        }
        law_put_is_got(before, after, data);
        assert forall|i: int|
            #![trigger puts[i]]
            0 <= i < puts.len() implies after.contains_key(blake3_hex(puts[i]))
            && after[blake3_hex(puts[i])] == puts[i] by {
            if i < rest.len() {
                assert(rest[i] == puts[i]);
                assert(before.contains_key(blake3_hex(rest[i])));
                if blake3_hex(puts[i]) != blake3_hex(data) {
                    assert(same_at(before, after, blake3_hex(puts[i])));
                } else {
                    assert(puts[i] == puts[puts.len() - 1]);
                }
            }
        }
        assert forall|h: Seq<char>| #[trigger] after.contains_key(h) implies exists|i: int|
            0 <= i < puts.len() && blake3_hex(#[trigger] puts[i]) == h by {
            if h != blake3_hex(data) {
                assert(same_at(before, after, h));
                assert(before.contains_key(h));
                let i = choose|i: int| 0 <= i < rest.len() && blake3_hex(#[trigger] rest[i]) == h;
                assert(rest[i] == puts[i]);
            } else {
                assert(blake3_hex(puts[puts.len() - 1]) == h);
            }
        }
    }
}

/// A chunk is kept and looked for in the same file: one in the directory of the
/// chunks, below that of the store, which is named by the hash of the chunk.
pub proof fn law_chunk_is_looked_for_where_it_is_kept(
    cas_dir: &str,
    dir: String,
    store: LocalChunkStore,
    data: &[u8],
    file: ChunkFile,
    chunks: &str,
    hash: &str,
    path: String,
    joined_path: String,
)
    requires
        call_ensures(LocalChunkStore::open, (cas_dir,), store),
        call_ensures(LocalChunkStore::put, (&store, data), file),
        hash@ == file.hash@,
        chunks@ == dir@,
        call_ensures(LocalChunkStore::chunk_path, (&store, hash), path),
        call_ensures(join_path, (cas_dir, "chunks"), dir),
        call_ensures(join_path, (chunks, hash), joined_path),
    ensures
        file.hash@ == blake3_hex(data@),
        file.hash@.len() == 64,
        path@ == file.path@,
        path@ == joined_path@,
{
}

/// Putting a chunk comes to its hash where its file was written or was there, and to
/// an error that names it, with the cause, where it was not.
pub proof fn law_what_putting_comes_to(
    file: ChunkFile,
    outcome: CreateOutcome,
    r: Result<String, ChunkFailure>,
)
    requires
        call_ensures(LocalChunkStore::put_result, (file, outcome), r),
    ensures
        match r {
            Ok(hash) => hash@ == file.hash@ && (outcome is Written || outcome is AlreadyExists),
            Err(e) => match outcome {
                CreateOutcome::CreateFailed(why) => e.cause@ == why@ && e.message@
                    == "failed to create chunk "@ + file.hash@,
                CreateOutcome::WriteFailed(why) => e.cause@ == why@ && e.message@
                    == "failed to write chunk "@ + file.hash@,
                _ => false,
            },
        },
{
}

/// Getting a chunk comes to what its file holds, to nothing exactly where there is no
/// file, and to an error that names it, with the cause, where it cannot be read.
pub proof fn law_what_getting_comes_to(
    hash: &str,
    outcome: ReadOutcome,
    r: Result<Option<Vec<u8>>, ChunkFailure>,
)
    requires
        call_ensures(LocalChunkStore::get_result, (hash, outcome), r),
    ensures
        match r {
            Ok(Some(data)) => outcome matches ReadOutcome::Data(d) && d@ == data@,
            Ok(None) => outcome is NotFound,
            Err(e) => outcome matches ReadOutcome::Failed(why) && e.cause@ == why@ && e.message@
                == "failed to read chunk "@ + hash@,
        },
{
}

} // verus!
