//! The chunk index: which chunk of a disk image has which content hash, and
//! the file format in which an index is kept.

use vstd::prelude::*;
use vstd::string::StringExecFns;

use crate::bytes::{push_u32_le, push_u64_le, read_u32_le, read_u64_le};
use crate::text::{append_decimal, string_from_utf8};

verus! {

use crate::bytes::{
    le_bytes, le_value, lemma_byte_range_4, lemma_byte_range_8, lemma_four_bytes, lemma_le_bytes_len,
    lemma_le_round_trip,
};
use crate::text::{decimal, text_of, texts_of, utf8_error_len, valid_prefix};
use vstd::utf8::{decode_utf8, encode_utf8, valid_utf8};

/// Size of one chunk in bytes.
pub const CHUNK_SIZE: usize = 65536;

/// The hash that stands for "no chunk here, ask the parent".
pub const ZERO_CHUNK_HASH: &'static str = "ZERO";

/// The number of chunks that cover `disk_size` bytes.
pub open spec fn chunks_for(disk_size: nat) -> nat {
    (disk_size + CHUNK_SIZE - 1) as nat / (CHUNK_SIZE as nat)
}

/// Computes `chunks_for`.
pub fn chunk_count(disk_size: u64) -> (n: u64)
    requires
        disk_size + CHUNK_SIZE - 1 <= u64::MAX,
    ensures
        n == chunks_for(disk_size as nat),
{
    (disk_size + 65535) / 65536
}

/// What an index says.
#[verifier::ext_equal]
pub struct IndexView {
    pub disk_size: nat,
    pub hashes: Seq<Seq<char>>,
    pub parent_path: Option<Seq<char>>,
    pub fallback_path: Option<Seq<char>>,
}

impl IndexView {
    /// The index covers its disk exactly: one hash for each chunk.
    pub open spec fn wf(self) -> bool {
        &&& self.disk_size <= u64::MAX
        &&& self.hashes.len() == chunks_for(self.disk_size)
    }

    /// The hash at `idx`; past the end of the disk it is `ZERO_CHUNK_HASH`.
    pub open spec fn hash_at(self, idx: int) -> Seq<char> {
        if 0 <= idx < self.hashes.len() {
            self.hashes[idx]
        } else {
            ZERO_CHUNK_HASH@
        }
    }
}

/// Why a file is not an index.
#[derive(Clone, Copy, PartialEq, Eq, Structural, Debug)]
pub enum IndexError {
    /// The file ends before the index does.
    Truncated,
    /// The chunk count in the header does not fit the disk size in the header.
    ChunkCount { num_chunks: u64, disk_size: u64, expected: u64 },
    /// A path or a hash is not UTF-8: how much of it is, and how long the part
    /// behind that is which is not. There is no length where the text ends in
    /// the middle of a character.
    InvalidUtf8 { valid_up_to: usize, error_len: Option<usize> },
}

impl IndexError {
    /// What the error says about the file at `path`.
    pub open spec fn text(self, path: Seq<char>) -> Seq<char> {
        match self {
            IndexError::Truncated => "failed to fill whole buffer"@,
            IndexError::ChunkCount { num_chunks, disk_size, expected } => "index "@ + path
                + ": chunk count "@ + decimal(num_chunks as nat) + " does not match disk_size "@
                + decimal(disk_size as nat) + " (expected "@ + decimal(expected as nat) + ")"@,
            IndexError::InvalidUtf8 { valid_up_to, error_len: Some(len) } => {
                "invalid utf-8 sequence of "@ + decimal(len as nat) + " bytes from index "@
                    + decimal(valid_up_to as nat)
            },
            IndexError::InvalidUtf8 { valid_up_to, error_len: None } => {
                "incomplete utf-8 byte sequence from index "@ + decimal(valid_up_to as nat)
            },
        }
    }

    /// The error as a message about the file at `path`.
    pub fn message(&self, path: &str) -> (r: String)
        ensures
            r@ == self.text(path@),
    {
        match self {
            IndexError::Truncated => "failed to fill whole buffer".to_string(),
            IndexError::ChunkCount { num_chunks, disk_size, expected } => {
                let mut r = "index ".to_string();
                r.append(path);
                r.append(": chunk count ");
                append_decimal(&mut r, *num_chunks);
                r.append(" does not match disk_size ");
                append_decimal(&mut r, *disk_size);
                r.append(" (expected ");
                append_decimal(&mut r, *expected);
                r.append(")");
                r
            },
            IndexError::InvalidUtf8 { valid_up_to, error_len } => match error_len {
                Some(len) => {
                    let mut r = "invalid utf-8 sequence of ".to_string();
                    append_decimal(&mut r, *len as u64);
                    r.append(" bytes from index ");
                    append_decimal(&mut r, *valid_up_to as u64);
                    r
                },
                None => {
                    let mut r = "incomplete utf-8 byte sequence from index ".to_string();
                    append_decimal(&mut r, *valid_up_to as u64);
                    r
                },
            },
        }
    }
}

/// A backing file that is larger than the disk it backs.
pub struct SizeError {
    pub label: String,
    pub backend_size: u64,
    pub disk_size: u64,
}

impl SizeError {
    /// What the error says.
    pub open spec fn text(self) -> Seq<char> {
        self.label@ + " size ("@ + decimal(self.backend_size as nat)
            + ") exceeds index disk_size ("@ + decimal(self.disk_size as nat) + ")"@
    }

    /// The error as a message.
    pub fn message(&self) -> (r: String)
        ensures
            r@ == self.text(),
    {
        let mut r = self.label.as_str().to_string();
        r.append(" size (");
        append_decimal(&mut r, self.backend_size);
        r.append(") exceeds index disk_size (");
        append_decimal(&mut r, self.disk_size);
        r.append(")");
        r
    }
}

/// A length in four bytes, then the text in UTF-8.
pub open spec fn encode_field(text: Seq<char>) -> Seq<u8> {
    le_bytes(encode_utf8(text).len(), 4) + encode_utf8(text)
}

/// An absent path is written as the empty text.
pub open spec fn path_text(path: Option<Seq<char>>) -> Seq<char> {
    match path {
        Some(p) => p,
        None => Seq::empty(),
    }
}

/// The hashes, one field each.
pub open spec fn encode_hashes(hashes: Seq<Seq<char>>) -> Seq<u8>
    decreases hashes.len(),
{
    if hashes.len() == 0 {
        Seq::empty()
    } else {
        encode_field(hashes[0]) + encode_hashes(hashes.drop_first())
    }
}

/// The header of an index file: disk size, chunk count, parent path, fallback path.
pub open spec fn encode_header(v: IndexView) -> Seq<u8> {
    le_bytes(v.disk_size, 8) + le_bytes(v.hashes.len(), 8) + encode_field(
        path_text(v.parent_path),
    ) + encode_field(path_text(v.fallback_path))
}

/// The bytes of an index file.
pub open spec fn encode_index(v: IndexView) -> Seq<u8> {
    encode_header(v) + encode_hashes(v.hashes)
}

/// The field at `pos`, with the position behind it.
pub open spec fn field_at(bytes: Seq<u8>, pos: int) -> Result<(Seq<char>, int), IndexError> {
    if pos + 4 > bytes.len() {
        Err(IndexError::Truncated)
    } else {
        let len = le_value(bytes.subrange(pos, pos + 4));
        if pos + 4 + len > bytes.len() {
            Err(IndexError::Truncated)
        } else if !valid_utf8(bytes.subrange(pos + 4, pos + 4 + len)) {
            let text = bytes.subrange(pos + 4, pos + 4 + len);
            Err(
                IndexError::InvalidUtf8 {
                    valid_up_to: valid_prefix(text) as usize,
                    error_len: utf8_error_len(text),
                },
            )
        } else {
            Ok((decode_utf8(bytes.subrange(pos + 4, pos + 4 + len)), pos + 4 + len))
        }
    }
}

/// A path field: the empty text stands for no path.
pub open spec fn path_at(bytes: Seq<u8>, pos: int) -> Result<
    (Option<Seq<char>>, int),
    IndexError,
> {
    match field_at(bytes, pos) {
        Err(e) => Err(e),
        Ok((text, next)) => if text.len() == 0 {
            Ok((None, next))
        } else {
            Ok((Some(text), next))
        },
    }
}

/// The `n` fields from `pos` on.
pub open spec fn hashes_at(bytes: Seq<u8>, pos: int, n: nat) -> Result<
    Seq<Seq<char>>,
    IndexError,
>
    decreases n,
{
    if n == 0 {
        Ok(Seq::empty())
    } else {
        match field_at(bytes, pos) {
            Err(e) => Err(e),
            Ok((text, next)) => match hashes_at(bytes, next, (n - 1) as nat) {
                Err(e) => Err(e),
                Ok(rest) => Ok(seq![text] + rest),
            },
        }
    }
}

/// The index that a file holds, or the first thing in it that is wrong.
pub open spec fn decode_index(bytes: Seq<u8>) -> Result<IndexView, IndexError> {
    if bytes.len() < 16 {
        Err(IndexError::Truncated)
    } else {
        let disk_size = le_value(bytes.subrange(0, 8));
        let num_chunks = le_value(bytes.subrange(8, 16));
        if num_chunks != chunks_for(disk_size) {
            Err(
                IndexError::ChunkCount {
                    num_chunks: num_chunks as u64,
                    disk_size: disk_size as u64,
                    expected: chunks_for(disk_size) as u64,
                },
            )
        } else {
            match path_at(bytes, 16) {
                Err(e) => Err(e),
                Ok((parent_path, p1)) => match path_at(bytes, p1) {
                    Err(e) => Err(e),
                    Ok((fallback_path, p2)) => match hashes_at(bytes, p2, num_chunks) {
                        Err(e) => Err(e),
                        Ok(hashes) => Ok(
                            IndexView { disk_size, hashes, parent_path, fallback_path },
                        ),
                    },
                },
            }
        }
    }
}

/// The disk size in the header, if there is a whole header, leaves room for
/// rounding up to whole chunks.
pub open spec fn header_fits(bytes: Seq<u8>) -> bool {
    bytes.len() >= 16 ==> le_value(bytes.subrange(0, 8)) + CHUNK_SIZE - 1 <= u64::MAX
}

/// Index mapping chunk positions to hashes. One index per disk image or
/// checkpoint. `ZERO_CHUNK_HASH` entries mean "ask parent", which makes
/// checkpoints deltas.
pub struct ChunkIndex {
    hashes: Vec<String>,
    disk_size: u64,
    /// Path to the parent index. On read, `ZERO_CHUNK_HASH` entries resolve
    /// through the parent chain.
    parent_path: Option<String>,
    /// Path to the flat disk file at the bottom of the chain.
    fallback_path: Option<String>,
}

impl View for ChunkIndex {
    type V = IndexView;

    closed spec fn view(&self) -> IndexView {
        IndexView {
            disk_size: self.disk_size as nat,
            hashes: texts_of(self.hashes@),
            parent_path: text_of(self.parent_path),
            fallback_path: text_of(self.fallback_path),
        }
    }
}

/// Reads the field at `pos`.
fn read_field(bytes: &[u8], pos: usize) -> (r: Result<(String, usize), IndexError>)
    ensures
        match r {
            Ok((text, next)) => field_at(bytes@, pos as int) == Ok::<(Seq<char>, int), IndexError>(
                (text@, next as int),
            ),
            Err(e) => field_at(bytes@, pos as int) == Err::<(Seq<char>, int), IndexError>(e),
        },
{
    let total: usize = bytes.len();
    if pos > total || total - pos < 4 {
        return Err(IndexError::Truncated);
    }
    let len: u32 = read_u32_le(bytes, pos);
    let start: usize = pos + 4;
    if (total - start) < len as usize {
        return Err(IndexError::Truncated);
    }
    let end: usize = start + len as usize;
    let mut field: Vec<u8> = Vec::new();
    let mut i: usize = start;
    while i < end
        invariant
            start <= i <= end <= bytes@.len(),
            field@ =~= bytes@.subrange(start as int, i as int),
        decreases end - i,
    {
        field.push(bytes[i]);
        i = i + 1;
    }
    match string_from_utf8(field) {
        Ok(text) => Ok((text, end)),
        Err((valid_up_to, error_len)) => Err(IndexError::InvalidUtf8 { valid_up_to, error_len }),
    }
}

/// Reads the path field at `pos`.
fn read_path(bytes: &[u8], pos: usize) -> (r: Result<(Option<String>, usize), IndexError>)
    ensures
        match r {
            Ok((path, next)) => path_at(bytes@, pos as int) == Ok::<
                (Option<Seq<char>>, int),
                IndexError,
            >((text_of(path), next as int)),
            Err(e) => path_at(bytes@, pos as int) == Err::<(Option<Seq<char>>, int), IndexError>(e),
        },
{
    match read_field(bytes, pos) {
        Err(e) => Err(e),
        Ok((text, next)) => {
            if text.as_str().is_empty() {
                Ok((None, next))
            } else {
                Ok((Some(text), next))
            }
        },
    }
}

/// Appends a field.
fn push_field(out: &mut Vec<u8>, text: &str)
    ensures
        final(out)@ == old(out)@ + encode_field(text@),
{
    let encoded = text.as_bytes();
    let len: u32 = (encoded.len() as u64 % 4294967296) as u32;
    proof {
        lemma_low_bytes(encoded@.len());
    }
    push_u32_le(out, len);
    out.extend_from_slice(encoded);
    assert(out@ =~= old(out)@ + encode_field(text@));
}

/// The low four bytes of a length do not depend on what is above them.
proof fn lemma_low_bytes(n: nat)
    ensures
        le_bytes(n, 4) == le_bytes(n % 4294967296, 4),
{
    let m = n % 4294967296;
    let q = n / 4294967296;
    let (n1, m1) = (n / 256, m / 256);
    let (n2, m2) = (n1 / 256, m1 / 256);
    let (n3, m3) = (n2 / 256, m2 / 256);
    assert(n1 == q * 16777216 + m1);
    assert(n2 == q * 65536 + m2);
    assert(n3 == q * 256 + m3);
    assert(le_bytes(n3 / 256, 0) == le_bytes(m3 / 256, 0));
    assert(le_bytes(n3, 1) == le_bytes(m3, 1));
    assert(le_bytes(n2, 2) == le_bytes(m2, 2));
    assert(le_bytes(n1, 3) == le_bytes(m1, 3));
}

/// Appends an optional path.
fn push_path(out: &mut Vec<u8>, path: &Option<String>)
    ensures
        final(out)@ == old(out)@ + encode_field(path_text(text_of(*path))),
{
    match path {
        Some(p) => push_field(out, p.as_str()),
        None => {
            proof {
                reveal_strlit("");
                assert(""@ =~= Seq::<char>::empty());
            }
            push_field(out, "")
        },
    }
}

impl ChunkIndex {
    /// An index of a disk on which every chunk is still to be asked for.
    pub fn new(disk_size: u64) -> (r: Self)
        requires
            disk_size + CHUNK_SIZE - 1 <= u64::MAX,
            chunks_for(disk_size as nat) <= usize::MAX,
        ensures
            r@.wf(),
            r@.disk_size == disk_size,
            forall|i: int|
                0 <= i < r@.hashes.len() ==> #[trigger] r@.hashes[i] == ZERO_CHUNK_HASH@,
            r@.parent_path is None,
            r@.fallback_path is None,
    {
        let mut r = ChunkIndex {
            hashes: Vec::new(),
            disk_size: 0,
            parent_path: None,
            fallback_path: None,
        };
        r.extend_to(disk_size);
        r
    }

    /// Grows the index to cover `new_size` bytes.
    pub(crate) fn extend_to(&mut self, new_size: u64)
        requires
            old(self)@.wf(),
            new_size >= old(self)@.disk_size,
            new_size + CHUNK_SIZE - 1 <= u64::MAX,
            chunks_for(new_size as nat) <= usize::MAX,
        ensures
            final(self)@.wf(),
            final(self)@.disk_size == new_size,
            final(self)@.parent_path == old(self)@.parent_path,
            final(self)@.fallback_path == old(self)@.fallback_path,
            final(self)@.hashes.len() >= old(self)@.hashes.len(),
            forall|i: int|
                0 <= i < final(self)@.hashes.len() ==> #[trigger] final(self)@.hashes[i] == old(
                    self,
                )@.hash_at(i),
    {
        let wanted: usize = chunk_count(new_size) as usize;
        let ghost before = self@;
        while self.hashes.len() < wanted
            invariant
                before == old(self)@,
                before.hashes.len() <= self.hashes@.len() <= wanted,
                wanted == chunks_for(new_size as nat),
                self.parent_path == old(self).parent_path,
                self.fallback_path == old(self).fallback_path,
                forall|i: int|
                    0 <= i < self.hashes@.len() ==> #[trigger] self.hashes@[i]@ == before.hash_at(
                        i,
                    ),
            decreases wanted - self.hashes@.len(),
        {
            self.hashes.push(ZERO_CHUNK_HASH.to_string());
        }
        self.disk_size = new_size;
    }

    /// The size of the disk in bytes.
    pub fn disk_size(&self) -> (r: u64)
        ensures
            r == self@.disk_size,
    {
        self.disk_size
    }

    /// How many chunks the index covers.
    pub fn num_chunks(&self) -> (r: usize)
        ensures
            r == self@.hashes.len(),
    {
        self.hashes.len()
    }

    /// The hash of a chunk, or `None` past the end of the index.
    pub fn get_hash(&self, chunk_idx: usize) -> (r: Option<&str>)
        ensures
            r is Some <==> chunk_idx < self@.hashes.len(),
            r matches Some(h) ==> h@ == self@.hashes[chunk_idx as int],
    {
        if chunk_idx < self.hashes.len() {
            Some(self.hashes[chunk_idx].as_str())
        } else {
            None
        }
    }

    /// Sets the hash of a chunk. Past the end of the index nothing changes.
    pub fn set_hash(&mut self, chunk_idx: usize, hash: String)
        ensures
            final(self)@ == (IndexView {
                hashes: if chunk_idx < old(self)@.hashes.len() {
                    old(self)@.hashes.update(chunk_idx as int, hash@)
                } else {
                    old(self)@.hashes
                },
                ..old(self)@
            }),
    {
        if chunk_idx < self.hashes.len() {
            self.hashes[chunk_idx] = hash;
        }
        assert(self@.hashes =~= if chunk_idx < old(self)@.hashes.len() {
            old(self)@.hashes.update(chunk_idx as int, hash@)
        } else {
            old(self)@.hashes
        });
    }

    /// The path of the parent index.
    pub fn parent_path(&self) -> (r: Option<String>)
        ensures
            text_of(r) == self@.parent_path,
    {
        self.parent_path.clone()
    }

    /// The path of the flat disk file.
    pub fn fallback_path(&self) -> (r: Option<String>)
        ensures
            text_of(r) == self@.fallback_path,
    {
        self.fallback_path.clone()
    }

    /// Sets the path of the parent index.
    pub fn set_parent_path(&mut self, path: Option<String>)
        ensures
            final(self)@ == (IndexView { parent_path: text_of(path), ..old(self)@ }),
    {
        self.parent_path = path;
    }

    /// Sets the path of the flat disk file.
    pub fn set_fallback_path(&mut self, path: Option<String>)
        ensures
            final(self)@ == (IndexView { fallback_path: text_of(path), ..old(self)@ }),
    {
        self.fallback_path = path;
    }

    /// The bytes of the index file.
    pub fn save(&self) -> (out: Vec<u8>)
        ensures
            out@ == encode_index(self@),
    {
        let mut out: Vec<u8> = Vec::new();
        push_u64_le(&mut out, self.disk_size);
        push_u64_le(&mut out, self.hashes.len() as u64);
        push_path(&mut out, &self.parent_path);
        push_path(&mut out, &self.fallback_path);
        assert(out@ =~= encode_header(self@));
        let ghost hashes = self@.hashes;
        assert(hashes.skip(0) =~= hashes);
        let mut i: usize = 0;
        while i < self.hashes.len()
            invariant
                i <= self.hashes@.len(),
                hashes == self@.hashes,
                out@ + encode_hashes(hashes.skip(i as int)) =~= encode_index(self@),
            decreases self.hashes@.len() - i,
        {
            assert(hashes.skip(i as int).drop_first() =~= hashes.skip(i + 1));
            push_field(&mut out, self.hashes[i].as_str());
            i = i + 1;
        }
        assert(hashes.skip(i as int) =~= Seq::<Seq<char>>::empty());
        out
    }

    /// Tells whether the disk size in a file's header can be rounded up to
    /// whole chunks, which `load` needs.
    pub fn header_in_range(bytes: &[u8]) -> (r: bool)
        ensures
            r == header_fits(bytes@),
    {
        bytes.len() < 16 || read_u64_le(bytes, 0) <= u64::MAX - 65535
    }

    /// Checks that a backing file is not larger than the disk. A smaller one is
    /// in order: the rest of the disk is sparse.
    pub fn check_size_against_backend(&self, backend_size: u64, label: &str) -> (r: Result<
        (),
        SizeError,
    >)
        ensures
            r is Ok <==> backend_size <= self@.disk_size,
            r matches Err(e) ==> e.label@ == label@ && e.backend_size == backend_size
                && e.disk_size == self@.disk_size,
    {
        if backend_size <= self.disk_size {
            Ok(())
        } else {
            Err(
                SizeError {
                    label: label.to_string(),
                    backend_size,
                    disk_size: self.disk_size,
                },
            )
        }
    }

    /// The index in the bytes of an index file. Bytes behind the last hash are
    /// not looked at.
    #[verifier::loop_isolation(false)]
    pub fn load(bytes: &[u8]) -> (r: Result<ChunkIndex, IndexError>)
        requires
            header_fits(bytes@),
        ensures
            match r {
                Ok(index) => decode_index(bytes@) == Ok::<IndexView, IndexError>(index@)
                    && index@.wf(),
                Err(e) => decode_index(bytes@) == Err::<IndexView, IndexError>(e),
            },
    {
        if bytes.len() < 16 {
            return Err(IndexError::Truncated);
        }
        let disk_size: u64 = read_u64_le(bytes, 0);
        let num_chunks: u64 = read_u64_le(bytes, 8);
        let expected: u64 = chunk_count(disk_size);
        if num_chunks != expected {
            return Err(IndexError::ChunkCount { num_chunks, disk_size, expected });
        }
        let (parent_path, p1) = match read_path(bytes, 16) {
            Ok(found) => found,
            Err(e) => return Err(e),
        };
        let (fallback_path, p2) = match read_path(bytes, p1) {
            Ok(found) => found,
            Err(e) => return Err(e),
        };
        let mut hashes: Vec<String> = Vec::new();
        let mut pos: usize = p2;
        let mut left: u64 = num_chunks;
        let ghost whole = hashes_at(bytes@, p2 as int, num_chunks as nat);
        assert(whole matches Ok(rest) ==> texts_of(hashes@) + rest =~= rest);
        while left > 0
            invariant
                left <= num_chunks,
                hashes@.len() == num_chunks - left,
                whole == hashes_at(bytes@, p2 as int, num_chunks as nat),
                match hashes_at(bytes@, pos as int, left as nat) {
                    Ok(rest) => whole == Ok::<Seq<Seq<char>>, IndexError>(
                        texts_of(hashes@) + rest,
                    ),
                    Err(e) => whole == Err::<Seq<Seq<char>>, IndexError>(e),
                },
            decreases left,
        {
            match read_field(bytes, pos) {
                Ok((text, next)) => {
                    let ghost seen = texts_of(hashes@);
                    hashes.push(text);
                    assert(texts_of(hashes@) =~= seen.push(text@));
                    proof {
                        match hashes_at(bytes@, next as int, (left - 1) as nat) {
                            Ok(rest) => {
                                assert(seen + (seq![text@] + rest) =~= seen.push(text@) + rest);
                            },
                            Err(e) => {},
                        }
                    }
                    pos = next;
                    left = left - 1;
                },
                Err(e) => return Err(e),
            }
        }
        assert(texts_of(hashes@) + Seq::<Seq<char>>::empty() =~= texts_of(hashes@));
        Ok(ChunkIndex { hashes, disk_size, parent_path, fallback_path })
    }
}

/// The lengths in an index fit the four bytes that the file has for each.
pub open spec fn measurable(v: IndexView) -> bool {
    &&& v.wf()
    &&& encode_utf8(path_text(v.parent_path)).len() < 0x1_0000_0000
    &&& encode_utf8(path_text(v.fallback_path)).len() < 0x1_0000_0000
    &&& forall|i: int|
        0 <= i < v.hashes.len() ==> encode_utf8(#[trigger] v.hashes[i]).len() < 0x1_0000_0000
}

/// A path as it comes back from a file: the empty text stands for "no path".
pub open spec fn kept_path(path: Option<Seq<char>>) -> Option<Seq<char>> {
    match path {
        Some(p) => if p.len() == 0 {
            None
        } else {
            Some(p)
        },
        None => None,
    }
}

/// An index as it comes back from a file.
pub open spec fn kept_index(v: IndexView) -> IndexView {
    IndexView {
        parent_path: kept_path(v.parent_path),
        fallback_path: kept_path(v.fallback_path),
        ..v
    }
}

/// A field is found again wherever it stands.
proof fn lemma_field_round_trip(before: Seq<u8>, text: Seq<char>, after: Seq<u8>)
    requires
        encode_utf8(text).len() < 0x1_0000_0000,
    ensures
        field_at(before + encode_field(text) + after, before.len() as int) == Ok::<
            (Seq<char>, int),
            IndexError,
        >((text, (before + encode_field(text)).len() as int)),
{
    broadcast use vstd::utf8::encode_utf8_decode_utf8, vstd::utf8::encode_utf8_valid_utf8;

    let enc = encode_utf8(text);
    let n = enc.len();
    let all = before + encode_field(text) + after;
    let pos = before.len() as int;
    lemma_le_bytes_len(n, 4);
    lemma_byte_range_4();
    lemma_le_round_trip(n, 4);
    assert(all.subrange(pos, pos + 4) =~= le_bytes(n, 4));
    assert(all.subrange(pos + 4, pos + 4 + n) =~= enc);
    assert(valid_utf8(enc));
    assert(decode_utf8(enc) == text);
}

/// The hash fields are found again behind any bytes.
proof fn lemma_hashes_round_trip(before: Seq<u8>, hashes: Seq<Seq<char>>)
    requires
        forall|i: int|
            0 <= i < hashes.len() ==> encode_utf8(#[trigger] hashes[i]).len() < 0x1_0000_0000,
    ensures
        hashes_at(before + encode_hashes(hashes), before.len() as int, hashes.len()) == Ok::<
            Seq<Seq<char>>,
            IndexError,
        >(hashes),
    decreases hashes.len(),
{
    if hashes.len() > 0 {
        let rest = hashes.drop_first();
        let next = before + encode_field(hashes[0]);
        assert(before + encode_hashes(hashes) =~= next + encode_hashes(rest));
        lemma_field_round_trip(before, hashes[0], encode_hashes(rest));
        assert forall|i: int| 0 <= i < rest.len() implies encode_utf8(#[trigger] rest[i]).len()
            < 0x1_0000_0000 by {
            assert(rest[i] == hashes[i + 1]);
        }
        lemma_hashes_round_trip(next, rest);
        assert(seq![hashes[0]] + rest =~= hashes);
    } else {
        assert(hashes =~= Seq::empty());
    }
}

/// Loading what was saved gives the same index back: disk size, every hash,
/// and both paths, of which an empty one comes back as none.
pub proof fn law_load_inverts_save(v: IndexView)
    requires
        measurable(v),
    ensures
        decode_index(encode_index(v)) == Ok::<IndexView, IndexError>(kept_index(v)),
{
    let d = le_bytes(v.disk_size, 8);
    let c = le_bytes(v.hashes.len(), 8);
    let parent = path_text(v.parent_path);
    let fallback = path_text(v.fallback_path);
    let all = encode_index(v);
    lemma_le_bytes_len(v.disk_size, 8);
    lemma_le_bytes_len(v.hashes.len(), 8);
    lemma_byte_range_8();
    lemma_le_round_trip(v.disk_size, 8);
    lemma_le_round_trip(v.hashes.len(), 8);
    assert(encode_utf8(Seq::<char>::empty()).len() == 0);
    assert(all.subrange(0, 8) =~= d);
    assert(all.subrange(8, 16) =~= c);

    let behind_parent = encode_field(fallback) + encode_hashes(v.hashes);
    assert(all =~= (d + c) + encode_field(parent) + behind_parent);
    lemma_field_round_trip(d + c, parent, behind_parent);

    let to_fallback = d + c + encode_field(parent);
    assert(all =~= to_fallback + encode_field(fallback) + encode_hashes(v.hashes));
    lemma_field_round_trip(to_fallback, fallback, encode_hashes(v.hashes));

    lemma_hashes_round_trip(encode_header(v), v.hashes);
    assert(encode_header(v) =~= to_fallback + encode_field(fallback));
}

/// A field in bytes that are cut off at `k` is found where it ends before that,
/// and is in error otherwise.
proof fn lemma_field_cut(before: Seq<u8>, text: Seq<char>, after: Seq<u8>, k: int)
    requires
        encode_utf8(text).len() < 0x1_0000_0000,
        0 <= k <= (before + encode_field(text) + after).len(),
    ensures
        k < (before + encode_field(text)).len() ==> field_at(
            (before + encode_field(text) + after).take(k),
            before.len() as int,
        ) is Err,
        k >= (before + encode_field(text)).len() ==> field_at(
            (before + encode_field(text) + after).take(k),
            before.len() as int,
        ) == Ok::<(Seq<char>, int), IndexError>(
            (text, (before + encode_field(text)).len() as int),
        ),
{
    let n = encode_utf8(text).len();
    let whole = before + encode_field(text);
    let all = whole + after;
    let cut = all.take(k);
    let pos = before.len() as int;
    lemma_le_bytes_len(n, 4);
    if k >= whole.len() {
        assert(cut =~= before + encode_field(text) + after.take(k - whole.len()));
        lemma_field_round_trip(before, text, after.take(k - whole.len()));
    } else if k >= pos + 4 {
        lemma_byte_range_4();
        lemma_le_round_trip(n, 4);
        assert(cut.subrange(pos, pos + 4) =~= le_bytes(n, 4));
    }
}

/// Hash fields that are cut off are in error.
proof fn lemma_hashes_cut(before: Seq<u8>, hashes: Seq<Seq<char>>, k: int)
    requires
        forall|i: int|
            0 <= i < hashes.len() ==> encode_utf8(#[trigger] hashes[i]).len() < 0x1_0000_0000,
        before.len() <= k < (before + encode_hashes(hashes)).len(),
    ensures
        hashes_at(
            (before + encode_hashes(hashes)).take(k),
            before.len() as int,
            hashes.len(),
        ) is Err,
    decreases hashes.len(),
{
    if hashes.len() > 0 {
        let rest = hashes.drop_first();
        let next = before + encode_field(hashes[0]);
        assert(before + encode_hashes(hashes) =~= next + encode_hashes(rest));
        lemma_field_cut(before, hashes[0], encode_hashes(rest), k);
        assert forall|i: int| 0 <= i < rest.len() implies encode_utf8(#[trigger] rest[i]).len()
            < 0x1_0000_0000 by {
            assert(rest[i] == hashes[i + 1]);
        }
        if k >= next.len() {
            lemma_hashes_cut(next, rest, k);
        }
    }
}

/// A cut-off index file is never accepted, wherever it is cut.
pub proof fn law_cut_off_index_is_refused(v: IndexView, k: int)
    requires
        measurable(v),
        0 <= k < encode_index(v).len(),
    ensures
        decode_index(encode_index(v).take(k)) is Err,
{
    let d = le_bytes(v.disk_size, 8);
    let c = le_bytes(v.hashes.len(), 8);
    let parent = path_text(v.parent_path);
    let fallback = path_text(v.fallback_path);
    let all = encode_index(v);
    let cut = all.take(k);
    lemma_le_bytes_len(v.disk_size, 8);
    lemma_le_bytes_len(v.hashes.len(), 8);
    if k >= 16 {
        lemma_byte_range_8();
        lemma_le_round_trip(v.disk_size, 8);
        lemma_le_round_trip(v.hashes.len(), 8);
        assert(cut.subrange(0, 8) =~= d);
        assert(cut.subrange(8, 16) =~= c);
        let behind_parent = encode_field(fallback) + encode_hashes(v.hashes);
        let to_fallback = d + c + encode_field(parent);
        assert(all =~= (d + c) + encode_field(parent) + behind_parent);
        lemma_field_cut(d + c, parent, behind_parent, k);
        if k >= to_fallback.len() {
            assert(all =~= to_fallback + encode_field(fallback) + encode_hashes(v.hashes));
            lemma_field_cut(to_fallback, fallback, encode_hashes(v.hashes), k);
            assert(encode_header(v) =~= to_fallback + encode_field(fallback));
            if k >= encode_header(v).len() {
                lemma_hashes_cut(encode_header(v), v.hashes, k);
            }
        }
    }
}

/// The chunks of a disk cover it, and one fewer would not.
pub proof fn law_chunks_cover_the_disk(size: u64, n: u64)
    requires
        size + 65535 <= u64::MAX,
        call_ensures(chunk_count, (size,), n),
    ensures
        n * 65536 >= size,
        n > 0 ==> (n - 1) * 65536 < size,
{
}

/// A new index covers its disk, knows no hash and names no file.
pub proof fn law_new_index(
    size: u64,
    index: ChunkIndex,
    n: u64,
    count: usize,
    k: usize,
    hash: Option<&str>,
    told: u64,
    paths: (Option<String>, Option<String>),
)
    requires
        size + 65535 <= u64::MAX,
        call_ensures(ChunkIndex::new, (size,), index),
        call_ensures(chunk_count, (size,), n),
        call_ensures(ChunkIndex::num_chunks, (&index,), count),
        call_ensures(ChunkIndex::get_hash, (&index, k), hash),
        call_ensures(ChunkIndex::disk_size, (&index,), told),
        call_ensures(ChunkIndex::parent_path, (&index,), paths.0),
        call_ensures(ChunkIndex::fallback_path, (&index,), paths.1),
    ensures
        count == n,
        told == size,
        hash is Some <==> k < n,
        hash matches Some(h) ==> h@ == "ZERO"@,
        paths.0 is None && paths.1 is None,
{
    assert(text_of(paths.0) is None && text_of(paths.1) is None);
}

/// A hash that was set is found at its chunk, where there is such a chunk, and
/// nothing else changes.
pub proof fn law_set_hash_is_found(
    index: &mut ChunkIndex,
    k: usize,
    hash: String,
    at: usize,
    before: Option<&str>,
    after: Option<&str>,
    counts: (usize, usize),
    sizes: (u64, u64),
)
    requires
        call_ensures(ChunkIndex::set_hash, (index, k, hash), ()),
        call_ensures(ChunkIndex::get_hash, (old(index), at), before),
        call_ensures(ChunkIndex::get_hash, (final(index), at), after),
        call_ensures(ChunkIndex::num_chunks, (old(index),), counts.0),
        call_ensures(ChunkIndex::num_chunks, (final(index),), counts.1),
        call_ensures(ChunkIndex::disk_size, (old(index),), sizes.0),
        call_ensures(ChunkIndex::disk_size, (final(index),), sizes.1),
    ensures
        after is Some <==> before is Some,
        at == k ==> (after matches Some(h) ==> h@ == hash@),
        at != k ==> (after matches Some(h) ==> h@ == before->Some_0@),
        counts.0 == counts.1 && sizes.0 == sizes.1,
        before is Some <==> at < counts.0,
{
}

/// A path that was set is the one that the index names, and the other one stays.
pub proof fn law_set_paths_are_named(
    a: &mut ChunkIndex,
    b: &mut ChunkIndex,
    parent: Option<String>,
    flat: Option<String>,
    named: (Option<String>, Option<String>),
    first: Option<String>,
)
    requires
        call_ensures(ChunkIndex::set_parent_path, (a, parent), ()),
        *old(b) == *final(a),
        call_ensures(ChunkIndex::set_fallback_path, (b, flat), ()),
        call_ensures(ChunkIndex::fallback_path, (old(a),), first),
        call_ensures(ChunkIndex::parent_path, (final(b),), named.0),
        call_ensures(ChunkIndex::fallback_path, (final(b),), named.1),
    ensures
        match parent {
            Some(p) => named.0 matches Some(n) && n@ == p@,
            None => named.0 is None,
        },
        match flat {
            Some(p) => named.1 matches Some(n) && n@ == p@,
            None => named.1 is None,
        },
{
    assert(text_of(named.0) == text_of(parent));
    assert(text_of(named.1) == text_of(flat));
}

/// What was saved is loaded: the same size, the same number of chunks, the same hash
/// for each, and the same paths, of which an empty one is none.
pub proof fn law_saved_index_is_loaded(
    index: &ChunkIndex,
    saved: Vec<u8>,
    bytes: &[u8],
    r: Result<ChunkIndex, IndexError>,
    k: usize,
    hashes: (Option<&str>, Option<&str>),
    sizes: (u64, u64),
    parents: (Option<String>, Option<String>),
    flats: (Option<String>, Option<String>),
)
    requires
        measurable(index@),
        call_ensures(ChunkIndex::save, (index,), saved),
        bytes@ == saved@,
        call_ensures(ChunkIndex::load, (bytes,), r),
        call_ensures(ChunkIndex::get_hash, (index, k), hashes.0),
        call_ensures(ChunkIndex::disk_size, (index,), sizes.0),
        call_ensures(ChunkIndex::parent_path, (index,), parents.0),
        call_ensures(ChunkIndex::fallback_path, (index,), flats.0),
        r matches Ok(loaded) ==> {
            &&& call_ensures(ChunkIndex::get_hash, (&loaded, k), hashes.1)
            &&& call_ensures(ChunkIndex::disk_size, (&loaded,), sizes.1)
            &&& call_ensures(ChunkIndex::parent_path, (&loaded,), parents.1)
            &&& call_ensures(ChunkIndex::fallback_path, (&loaded,), flats.1)
        },
    ensures
        r is Ok,
        hashes.0 is Some <==> hashes.1 is Some,
        hashes.0 matches Some(h) ==> h@ == hashes.1->Some_0@,
        sizes.0 == sizes.1,
        match parents.0 {
            Some(p) => if p@.len() > 0 {
                parents.1 matches Some(q) && q@ == p@
            } else {
                parents.1 is None
            },
            None => parents.1 is None,
        },
        match flats.0 {
            Some(p) => if p@.len() > 0 {
                flats.1 matches Some(q) && q@ == p@
            } else {
                flats.1 is None
            },
            None => flats.1 is None,
        },
{
    law_load_inverts_save(index@);
    assert(text_of(parents.1) == kept_path(text_of(parents.0)));
    assert(text_of(flats.1) == kept_path(text_of(flats.0)));
}

/// Where things stand in an index file: the size of the disk and the number of its
/// chunks in eight bytes each, then the path of the parent and that of the flat file,
/// each with its length in four bytes before it, and then the hashes.
pub proof fn law_index_file_layout(
    index: &ChunkIndex,
    saved: Vec<u8>,
    bytes: &[u8],
    numbers: (u64, u64, u32, u32),
    size: u64,
    count: usize,
    parent: Seq<u8>,
    flat: Seq<u8>,
)
    requires
        measurable(index@),
        call_ensures(ChunkIndex::save, (index,), saved),
        bytes@ == saved@,
        call_ensures(ChunkIndex::disk_size, (index,), size),
        call_ensures(ChunkIndex::num_chunks, (index,), count),
        parent == (match index@.parent_path {
            Some(p) => encode_utf8(p),
            None => Seq::empty(),
        }),
        flat == (match index@.fallback_path {
            Some(p) => encode_utf8(p),
            None => Seq::empty(),
        }),
        call_ensures(read_u64_le, (bytes, 0usize), numbers.0),
        call_ensures(read_u64_le, (bytes, 8usize), numbers.1),
        call_ensures(read_u32_le, (bytes, 16usize), numbers.2),
        call_ensures(read_u32_le, (bytes, (20 + parent.len()) as usize), numbers.3),
        bytes@.len() <= usize::MAX,
    ensures
        numbers.0 == size,
        numbers.1 == count,
        numbers.2 == parent.len(),
        numbers.3 == flat.len(),
        bytes@.len() >= 24 + parent.len() + flat.len(),
        bytes@.subrange(20, 20int + parent.len()) == parent,
        bytes@.subrange(24int + parent.len(), 24int + parent.len() + flat.len()) == flat,
        bytes@.skip(24int + parent.len() + flat.len()) == encode_hashes(index@.hashes),
{
    let v = index@;
    lemma_le_bytes_len(v.disk_size, 8);
    lemma_le_bytes_len(v.hashes.len(), 8);
    lemma_byte_range_8();
    lemma_byte_range_4();
    lemma_le_round_trip(v.disk_size, 8);
    lemma_le_round_trip(v.hashes.len(), 8);
    assert(encode_utf8(Seq::<char>::empty()) =~= Seq::<u8>::empty());
    assert(parent == encode_utf8(path_text(v.parent_path)));
    assert(flat == encode_utf8(path_text(v.fallback_path)));
    lemma_le_bytes_len(parent.len(), 4);
    lemma_le_bytes_len(flat.len(), 4);
    lemma_le_round_trip(parent.len(), 4);
    lemma_le_round_trip(flat.len(), 4);
    let (m, n) = (parent.len() as int, flat.len() as int);
    assert(bytes@.subrange(0, 8) =~= le_bytes(v.disk_size, 8));
    assert(bytes@.subrange(8, 16) =~= le_bytes(v.hashes.len(), 8));
    assert(bytes@.subrange(16, 20) =~= le_bytes(parent.len(), 4));
    assert(bytes@.subrange(20, 20 + m) =~= parent);
    assert(bytes@.subrange(20 + m, 24 + m) =~= le_bytes(flat.len(), 4));
    assert(bytes@.subrange(24 + m, 24 + m + n) =~= flat);
    assert(bytes@.skip(24 + m + n) =~= encode_hashes(v.hashes));
}

/// The hashes stand one after the other in their order.
pub proof fn law_hash_fields_keep_their_order(a: Seq<Seq<char>>, b: Seq<Seq<char>>)
    ensures
        encode_hashes(a + b) == encode_hashes(a) + encode_hashes(b),
    decreases a.len(),
{
    if a.len() == 0 {
        assert(a + b =~= b);
        assert(encode_hashes(a) + encode_hashes(b) =~= encode_hashes(b));
    } else {
        law_hash_fields_keep_their_order(a.drop_first(), b);
        assert((a + b).drop_first() =~= a.drop_first() + b);
        assert((a + b)[0] == a[0]);
        assert(encode_hashes(a + b) =~= encode_hashes(a) + encode_hashes(b));
    }
}

/// A hash stands in a file in UTF-8, with its length in four bytes before it.
pub proof fn law_hash_field(hash: Seq<char>)
    requires
        encode_utf8(hash).len() < 0x1_0000_0000,
    ensures
        ({
            let n = encode_utf8(hash).len();
            let field = encode_hashes(seq![hash]);
            &&& field.len() == 4 + n
            &&& field.skip(4) == encode_utf8(hash)
            &&& field[0] == n % 256
            &&& field[1] == n / 256 % 256
            &&& field[2] == n / 65536 % 256
            &&& field[3] == n / 16777216
        }),
{
    let one = seq![hash];
    let n = encode_utf8(hash).len();
    assert(one.drop_first() =~= Seq::<Seq<char>>::empty());
    assert(encode_hashes(one.drop_first()) =~= Seq::<u8>::empty());
    assert(encode_hashes(one) =~= encode_field(hash));
    lemma_four_bytes(n);
    assert(encode_field(hash).skip(4) =~= encode_utf8(hash));
}

/// Bytes behind an index do not matter.
pub proof fn law_bytes_behind_an_index_are_ignored(
    bytes: &[u8],
    longer: &[u8],
    more: Seq<u8>,
    r: Result<ChunkIndex, IndexError>,
    q: Result<ChunkIndex, IndexError>,
)
    requires
        longer@ == bytes@ + more,
        call_ensures(ChunkIndex::load, (bytes,), r),
        call_ensures(ChunkIndex::load, (longer,), q),
    ensures
        r matches Ok(index) ==> (q matches Ok(again) && again@ == index@),
{
    if r is Ok {
        let b = bytes@;
        assert(longer@.subrange(0, 8) =~= b.subrange(0, 8));
        assert(longer@.subrange(8, 16) =~= b.subrange(8, 16));
        lemma_field_with_more(b, more, 16);
        let p1 = path_at(b, 16)->Ok_0.1;
        lemma_field_with_more(b, more, p1);
        let p2 = path_at(b, p1)->Ok_0.1;
        lemma_hashes_with_more(b, more, p2, le_value(b.subrange(8, 16)));
    }
}

/// A field that is there is there whatever follows.
proof fn lemma_field_with_more(bytes: Seq<u8>, more: Seq<u8>, pos: int)
    requires
        0 <= pos,
        field_at(bytes, pos) is Ok,
    ensures
        field_at(bytes + more, pos) == field_at(bytes, pos),
        field_at(bytes, pos)->Ok_0.1 >= 0,
{
    let all = bytes + more;
    assert(all.subrange(pos, pos + 4) =~= bytes.subrange(pos, pos + 4));
    let len = le_value(bytes.subrange(pos, pos + 4));
    assert(all.subrange(pos + 4, pos + 4 + len) =~= bytes.subrange(pos + 4, pos + 4 + len));
}

/// Fields that are there are there whatever follows.
proof fn lemma_hashes_with_more(bytes: Seq<u8>, more: Seq<u8>, pos: int, n: nat)
    requires
        0 <= pos,
        hashes_at(bytes, pos, n) is Ok,
    ensures
        hashes_at(bytes + more, pos, n) == hashes_at(bytes, pos, n),
    decreases n,
{
    if n > 0 {
        lemma_field_with_more(bytes, more, pos);
        lemma_hashes_with_more(bytes, more, field_at(bytes, pos)->Ok_0.1, (n - 1) as nat);
    }
}

/// What is not an index: bytes that end in the header, a chunk count that does not
/// cover the disk, which is told with the one that would, and a file that was cut off
/// anywhere. Each error names what is wrong.
pub proof fn law_what_is_no_index(
    bytes: &[u8],
    r: Result<ChunkIndex, IndexError>,
    numbers: (u64, u64),
    n: u64,
    path: &str,
    m: String,
    v: IndexView,
    k: int,
)
    requires
        header_fits(bytes@),
        call_ensures(ChunkIndex::load, (bytes,), r),
        bytes@.len() >= 16 ==> {
            &&& call_ensures(read_u64_le, (bytes, 0usize), numbers.0)
            &&& call_ensures(read_u64_le, (bytes, 8usize), numbers.1)
            &&& call_ensures(chunk_count, (numbers.0,), n)
        },
        r matches Err(e) ==> call_ensures(IndexError::message, (&e, path), m),
    ensures
        bytes@.len() < 16 ==> r is Err && m@ == "failed to fill whole buffer"@,
        bytes@.len() >= 16 && numbers.1 != n ==> r is Err && m@ == "index "@ + path@
            + ": chunk count "@ + decimal(numbers.1 as nat) + " does not match disk_size "@
            + decimal(numbers.0 as nat) + " (expected "@ + decimal(n as nat) + ")"@,
        r is Ok ==> numbers.1 == n,
        measurable(v) && 0 <= k < encode_index(v).len() && bytes@ == encode_index(v).take(k)
            ==> r is Err,
{
    if measurable(v) && 0 <= k < encode_index(v).len() {
        law_cut_off_index_is_refused(v, k);
    }
}

/// Whether a header can be rounded up to whole chunks, and whether a file is larger
/// than the disk it backs, which is told with both sizes.
pub proof fn law_sizes_are_checked(
    bytes: &[u8],
    in_range: bool,
    size: u64,
    index: &ChunkIndex,
    backend_size: u64,
    label: &str,
    disk_size: u64,
    r: Result<(), SizeError>,
    m: String,
)
    requires
        call_ensures(ChunkIndex::header_in_range, (bytes,), in_range),
        bytes@.len() >= 16 ==> call_ensures(read_u64_le, (bytes, 0usize), size),
        call_ensures(ChunkIndex::disk_size, (index,), disk_size),
        call_ensures(
            ChunkIndex::check_size_against_backend,
            (index, backend_size, label),
            r,
        ),
        r matches Err(e) ==> call_ensures(SizeError::message, (&e,), m),
    ensures
        in_range <==> bytes@.len() < 16 || size + 65535 <= u64::MAX,
        r is Err <==> backend_size > disk_size,
        r is Err ==> m@ == label@ + " size ("@ + decimal(backend_size as nat)
            + ") exceeds index disk_size ("@ + decimal(disk_size as nat) + ")"@,
{
}

/// An index file can be loaded unless the size in its header is so large that the
/// number of its chunks could not be counted, and whether it is can be asked.
pub proof fn law_what_can_be_loaded(bytes: &[u8], r: bool)
    requires
        call_ensures(ChunkIndex::header_in_range, (bytes,), r),
    ensures
        r ==> call_requires(ChunkIndex::load, (bytes,)),
        r <==> bytes@.len() < 16 || le_value(bytes@.subrange(0, 8)) <= 18446744073709486080,
{
}

} // verus!
