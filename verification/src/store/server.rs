//! Serving a disk: how it is opened, which connections are served, and what a
//! running server can be asked for.

use vstd::prelude::*;
use vstd::string::StringExecFns;

use crate::store::backend::{BackendError, CasBackend, FlatFileBackend};
use crate::store::chunk::ChunkStore;
use crate::store::index::{ChunkIndex, CHUNK_SIZE, ZERO_CHUNK_HASH};
use crate::text::{append_decimal, concat};

verus! {

use crate::store::backend::index_layers;
use crate::store::disk::law_flat_file_shows_through;
use crate::store::flush::{flush_calls, flush_failed, flushed, saved};
use crate::store::history::{law_opened_disk_stands_on_its_index, stands_on};
use crate::store::index::{chunks_for, encode_index, IndexView};
use crate::text::{decimal, text_of};

/// The parents of an index, as far as they were loaded.
pub struct ParentChain {
    /// The parents, nearest first.
    pub chain: Vec<ChunkIndex>,
    /// The index file to load next.
    pub next: Option<String>,
}

impl ParentChain {
    /// The chain goes on where its last index, or `index` itself, says.
    pub open spec fn follows(self, index: IndexView) -> bool {
        self.next is Some ==> text_of(self.next) == if self.chain@.len() == 0 {
            index.parent_path
        } else {
            self.chain@.last()@.parent_path
        }
    }

    /// The chain of `index`, before any parent was loaded.
    pub fn load_parent_chain(index: &ChunkIndex) -> (r: Self)
        ensures
            r.chain@.len() == 0,
            text_of(r.next) == index@.parent_path,
            r.follows(index@),
    {
        ParentChain { chain: Vec::new(), next: index.parent_path() }
    }

    /// Goes on with what came of loading the next index. A parent that could
    /// not be loaded ends the chain.
    pub fn loaded(&mut self, parent: Option<ChunkIndex>)
        ensures
            match parent {
                Some(p) => {
                    &&& final(self).chain@ == old(self).chain@.push(p)
                    &&& text_of(final(self).next) == p@.parent_path
                },
                None => {
                    &&& final(self).chain@ == old(self).chain@
                    &&& final(self).next is None
                },
            },
            forall|index: IndexView| #[trigger] final(self).follows(index),
    {
        match parent {
            Some(p) => {
                self.next = p.parent_path();
                self.chain.push(p);
            },
            None => {
                self.next = None;
            },
        }
    }
}

/// What a disk is opened from.
pub enum DiskSource {
    /// An index file that is there, with the flat file that it names if that
    /// could be opened.
    Existing { index_path: String, index: ChunkIndex, fallback: Option<FlatFileBackend> },
    /// No index yet: the flat disk file, to be ingested as it is read.
    Fresh { rootfs: FlatFileBackend },
}

impl DiskSource {
    /// The sizes are within the numbers that the machine has for them.
    pub open spec fn fits(self) -> bool {
        match self {
            DiskSource::Existing { index, .. } => index@.wf(),
            DiskSource::Fresh { rootfs } => {
                &&& rootfs.size + CHUNK_SIZE - 1 <= u64::MAX
                &&& chunks_for(rootfs.size as nat) <= usize::MAX
            },
        }
    }

    /// The size of the disk before it is extended.
    pub open spec fn disk_size(self) -> nat {
        match self {
            DiskSource::Existing { index, .. } => index@.disk_size,
            DiskSource::Fresh { rootfs } => rootfs.size as nat,
        }
    }

    /// The index that the disk is opened from.
    pub open spec fn index(self) -> Option<IndexView> {
        match self {
            DiskSource::Existing { index, .. } => Some(index@),
            DiskSource::Fresh { .. } => None,
        }
    }

    /// The hash that the source has for a chunk.
    pub open spec fn hash_at(self, idx: int) -> Seq<char> {
        match self {
            DiskSource::Existing { index, .. } => index@.hash_at(idx),
            DiskSource::Fresh { .. } => ZERO_CHUNK_HASH@,
        }
    }

    /// The path of the index that the disk is opened from.
    pub open spec fn index_path(self) -> Option<Seq<char>> {
        match self {
            DiskSource::Existing { index_path, .. } => Some(index_path@),
            DiskSource::Fresh { .. } => None,
        }
    }

    /// The flat file.
    pub open spec fn flat(self) -> Option<FlatFileBackend> {
        match self {
            DiskSource::Existing { fallback, .. } => fallback,
            DiskSource::Fresh { rootfs } => Some(rootfs),
        }
    }
}

/// A flat file that is larger than the disk which an index describes.
#[derive(Clone, Copy, PartialEq, Eq, Structural, Debug)]
pub struct CorruptIndex {
    pub fallback_size: u64,
    pub disk_size: u64,
}

impl CorruptIndex {
    /// What the error says.
    pub open spec fn text(self) -> Seq<char> {
        "fallback file size ("@ + decimal(self.fallback_size as nat)
            + ") exceeds index disk_size ("@ + decimal(self.disk_size as nat)
            + "); index may be corrupt"@
    }

    /// The error as a message.
    pub fn message(&self) -> (r: String)
        ensures
            r@ == self.text(),
    {
        let mut r = "fallback file size (".to_string();
        append_decimal(&mut r, self.fallback_size);
        r.append(") exceeds index disk_size (");
        append_decimal(&mut r, self.disk_size);
        r.append("); index may be corrupt");
        r
    }
}

/// The size after a disk of `size` bytes was asked to have `wanted` bytes.
pub open spec fn grown(size: nat, wanted: nat) -> nat {
    if wanted > size {
        wanted
    } else {
        size
    }
}

/// Opens the disk to be served. Nothing of the flat file is read yet: its chunks
/// are ingested as they are read. The disk is extended to `disk_size`, where
/// that is larger, and is never made smaller.
pub fn start_cas_nbd_server<S: ChunkStore>(
    store: S,
    source: DiskSource,
    parents: Vec<ChunkIndex>,
    disk_size: u64,
) -> (r: Result<CasBackend<S>, CorruptIndex>)
    requires
        source.fits(),
        disk_size + CHUNK_SIZE - 1 <= u64::MAX,
        chunks_for(disk_size as nat) <= usize::MAX,
    ensures
        match r {
            Err(e) => {
                &&& source is Existing
                &&& source.flat() matches Some(f) && f.size > source.disk_size()
                    && e.fallback_size == f.size && e.disk_size == source.disk_size()
            },
            Ok(disk) => {
                &&& source.flat() matches Some(f) ==> f.size <= source.disk_size()
                &&& disk.source() == source.index_path()
                &&& disk.flat_path() == (match source.flat() {
                    Some(f) => Some(f.path@),
                    None => None::<Seq<char>>,
                })
                &&& disk@.dirty == Map::<int, Seq<u8>>::empty()
                &&& disk@.contents == store.contents()
                &&& disk.puts() == store.puts()
                &&& disk@.flat_len == (match source.flat() {
                    Some(f) => f.size as nat,
                    None => 0,
                })
                &&& disk@.layers.len() == parents@.len() + 1
                &&& forall|i: int|
                    0 <= i < parents@.len() ==> #[trigger] disk@.layers[i + 1] == parents@[i]@
                &&& stands_on(
                    disk@,
                    source.index(),
                    Seq::new(parents@.len(), |i: int| parents@[i]@),
                )
                &&& disk@.layers[0].wf()
                &&& disk@.layers[0].disk_size == grown(source.disk_size(), disk_size as nat)
                &&& forall|k: int| #[trigger] disk@.layers[0].hash_at(k) == source.hash_at(k)
                &&& source matches DiskSource::Existing { index, .. } ==> {
                    &&& disk@.layers[0].parent_path == index@.parent_path
                    &&& disk@.layers[0].fallback_path == index@.fallback_path
                }
                &&& source is Fresh ==> {
                    &&& disk@.layers[0].parent_path is None
                    &&& disk@.layers[0].fallback_path is None
                }
            },
        },
{
    let (index, fallback, source_index_path) = match source {
        DiskSource::Existing { index_path, index, fallback } => {
            match &fallback {
                Some(f) => {
                    if f.size > index.disk_size() {
                        return Err(
                            CorruptIndex { fallback_size: f.size, disk_size: index.disk_size() },
                        );
                    }
                },
                None => {},
            }
            (index, fallback, Some(index_path))
        },
        DiskSource::Fresh { rootfs } => (ChunkIndex::new(rootfs.size), Some(rootfs), None),
    };
    let mut disk = match fallback {
        Some(f) => CasBackend::with_fallback(store, index, f, parents),
        None => CasBackend::new(store, index, parents),
    };
    disk.set_source_index_path(source_index_path);
    let ghost opened = disk@;
    proof {
        assert(opened.layers[0] == index@);
        assert(opened.layers == index_layers(index, parents@));
        assert forall|i: int| 0 <= i < parents@.len() implies #[trigger] opened.layers[i + 1]
            == parents@[i]@ by {}
    }
    if disk_size > 0 {
        disk.set_disk_size(disk_size);
    }
    proof {
        assert(disk@.layers.drop_first() =~= Seq::new(parents@.len(), |i: int| parents@[i]@));
        if source.index() is Some {
            law_opened_disk_stands_on_its_index(disk@, source.index()->Some_0);
        }
    }
    Ok(disk)
}

/// What a server is to do next.
#[derive(Clone, Copy, PartialEq, Eq, Structural, Debug)]
pub enum AcceptAction {
    /// Serve the connection.
    Serve,
    /// Report that accepting failed, and accept again.
    Warn,
    /// Accept no more.
    Stop,
}

/// The descriptor that stands for "no client".
pub const IDLE_FD: i32 = -1;

/// A server that takes one connection after the other.
pub struct AcceptLoop {
    /// The descriptor of the client that is being served, or `IDLE_FD`.
    pub active_fd: i32,
    /// No more connections are accepted.
    pub stopped: bool,
}

impl AcceptLoop {
    /// A server without a client.
    pub fn new() -> (r: Self)
        ensures
            r.active_fd == IDLE_FD,
            !r.stopped,
    {
        AcceptLoop { active_fd: IDLE_FD, stopped: false }
    }

    /// Decides on the result of an accept: the descriptor of a connection, or
    /// `None` where it failed. A pending shutdown goes before either.
    pub fn accepted(&mut self, fd: Option<i32>, shutdown: bool) -> (r: AcceptAction)
        ensures
            r == if shutdown {
                AcceptAction::Stop
            } else if fd is Some {
                AcceptAction::Serve
            } else {
                AcceptAction::Warn
            },
            final(self).stopped == (old(self).stopped || shutdown),
            final(self).active_fd == if r is Serve {
                fd->Some_0
            } else {
                old(self).active_fd
            },
    {
        if shutdown {
            self.stopped = true;
            return AcceptAction::Stop;
        }
        match fd {
            Some(fd) => {
                self.active_fd = fd;
                AcceptAction::Serve
            },
            None => AcceptAction::Warn,
        }
    }

    /// The client is gone.
    pub fn client_done(&mut self)
        ensures
            final(self).active_fd == IDLE_FD,
            final(self).stopped == old(self).stopped,
    {
        self.active_fd = IDLE_FD;
    }

    /// The connection to interrupt on shutdown.
    pub fn to_interrupt(&self) -> (r: Option<i32>)
        ensures
            r == if self.active_fd >= 0 {
                Some(self.active_fd)
            } else {
                None
            },
    {
        if self.active_fd >= 0 {
            Some(self.active_fd)
        } else {
            None
        }
    }
}

/// Why a checkpoint was not saved.
pub enum CheckpointError {
    /// The server has no chunk store behind it.
    NotCas,
    /// The disk failed.
    Backend(BackendError),
}

impl CheckpointError {
    /// What the error says.
    pub open spec fn text(self) -> Seq<char> {
        match self {
            CheckpointError::NotCas => "save_checkpoint requires CAS backend"@,
            CheckpointError::Backend(BackendError::Store(e)) => e@,
            CheckpointError::Backend(BackendError::Flat(e)) => e@,
        }
    }

    /// The error as a message.
    pub fn message(&self) -> (r: String)
        ensures
            r@ == self.text(),
    {
        match self {
            CheckpointError::NotCas => "save_checkpoint requires CAS backend".to_string(),
            CheckpointError::Backend(e) => e.message(),
        }
    }
}

/// A running server: where it listens, and the disk it serves.
pub struct NbdHandle<S: ChunkStore> {
    pub socket_path: String,
    /// `None` where the disk is a flat file.
    pub cas_backend: Option<CasBackend<S>>,
}

impl<S: ChunkStore> NbdHandle<S> {
    /// The address of the disk for the virtual machine.
    pub fn uri(&self) -> (r: String)
        ensures
            r@ == "nbd+unix:///export?socket="@ + self.socket_path@,
    {
        concat("nbd+unix:///export?socket=", self.socket_path.as_str())
    }

    /// The bytes of a checkpoint of the disk, as `CasBackend::save_index` gives
    /// them. A flat disk has no checkpoints.
    pub fn save_checkpoint(&mut self) -> (r: Result<Vec<u8>, CheckpointError>)
        ensures
            final(self).socket_path == old(self).socket_path,
            old(self).cas_backend is None <==> (r matches Err(CheckpointError::NotCas)),
            old(self).cas_backend is None ==> *final(self) == *old(self),
            old(self).cas_backend matches Some(before) ==> {
                &&& final(self).cas_backend matches Some(after) && after.same_base(&before)
                    && match r {
                    Ok(bytes) => {
                        &&& saved(before@, after@, before.source(), before.flat_path())
                        &&& bytes@ == encode_index(after@.layers[0])
                    },
                    Err(e) => e is Backend && flush_failed(before@, after@),
                } && flush_calls(
                    before@,
                    before.puts(),
                    after.puts(),
                    match r {
                        Err(e) => Some(e.text()),
                        Ok(_) => None,
                    },
                )
            },
    {
        match &mut self.cas_backend {
            None => Err(CheckpointError::NotCas),
            Some(disk) => match disk.save_index() {
                Ok(bytes) => Ok(bytes),
                Err(e) => Err(CheckpointError::Backend(e)),
            },
        }
    }

    /// Flushes the disk before the server goes down. A chunk that cannot be
    /// stored does not hold the shutdown up.
    pub fn close(&mut self)
        ensures
            final(self).socket_path == old(self).socket_path,
            old(self).cas_backend is None ==> *final(self) == *old(self),
            old(self).cas_backend matches Some(before) ==> {
                &&& final(self).cas_backend matches Some(after) && after.same_base(&before) && (
                flushed(before@, after@) && flush_calls(before@, before.puts(), after.puts(), None)
                    || flush_failed(before@, after@) && exists|text: Seq<char>| #[trigger]
                    flush_calls(before@, before.puts(), after.puts(), Some(text)))
            },
    {
        match &mut self.cas_backend {
            None => {},
            Some(disk) => {
                let _ = disk.flush();
            },
        }
    }
}

/// The parents of an index are loaded one after the other, each from where the one
/// before it says, and the first that cannot be loaded is the last that is tried.
pub proof fn law_parents_are_followed(
    index: ChunkIndex,
    first: ParentChain,
    named: Option<String>,
    c: &mut ParentChain,
    parent: Option<ChunkIndex>,
    further: Option<String>,
)
    requires
        call_ensures(ParentChain::load_parent_chain, (&index,), first),
        call_ensures(ChunkIndex::parent_path, (&index,), named),
        call_ensures(ParentChain::loaded, (c, parent), ()),
        parent matches Some(p) ==> call_ensures(ChunkIndex::parent_path, (&p,), further),
    ensures
        first.chain@.len() == 0,
        first.next is Some <==> named is Some,
        first.next matches Some(n) ==> n@ == named->Some_0@,
        parent matches Some(p) ==> {
            &&& final(c).chain@.len() == old(c).chain@.len() + 1
            &&& final(c).chain@.last() == p
            &&& final(c).next is Some <==> further is Some
            &&& final(c).next matches Some(n) ==> n@ == further->Some_0@
        },
        parent is None ==> final(c).next is None && final(c).chain@.len() == old(c).chain@.len(),
        forall|i: int|
            0 <= i < old(c).chain@.len() ==> #[trigger] final(c).chain@[i] == old(c).chain@[i],
{
    assert(text_of(first.next) == text_of(named));
    if parent is Some {
        assert(text_of(final(c).next) == text_of(further));
    }
}

/// A new disk has the size of the flat file, or the size that was asked for, whichever
/// is larger, and shows the flat file, with zeros behind it.
pub proof fn law_fresh_disk_shows_the_flat_file<S: ChunkStore>(
    store: S,
    rootfs: FlatFileBackend,
    disk_size: u64,
    parents: Vec<ChunkIndex>,
    r: Result<CasBackend<S>, CorruptIndex>,
    size: u64,
    flat: Seq<u8>,
    o: int,
)
    requires
        parents@.len() == 0,
        call_ensures(
            start_cas_nbd_server::<S>,
            (store, DiskSource::Fresh { rootfs }, parents, disk_size),
            r,
        ),
        r matches Ok(disk) ==> call_ensures(CasBackend::<S>::size, (&disk,), size),
        flat.len() == rootfs.size,
        0 <= o,
    ensures
        r is Ok,
        size >= rootfs.size && size >= disk_size,
        size == rootfs.size || size == disk_size,
        r matches Ok(disk) ==> disk@.byte(flat, o) == if o < flat.len() {
            flat[o]
        } else {
            0
        },
{
    let disk = r->Ok_0;
    let k = o / CHUNK_SIZE as int;
    assert forall|m: int| 0 <= m < disk@.layers.len() implies k >= (
    #[trigger] disk@.layers[m]).hashes.len() || disk@.layers[m].hashes[k] == ZERO_CHUNK_HASH@ by {
        assert(disk@.layers[0].hash_at(k) == ZERO_CHUNK_HASH@);
    }
    law_flat_file_shows_through(disk@, flat, o);
}

/// A disk of an index is refused where the flat file is larger than the disk, with
/// both sizes; else it has the hashes and the paths of that index, over the parents in
/// their order, nothing unsaved, and never less than the size of the index.
pub proof fn law_opened_disk_is_that_of_its_index<S: ChunkStore>(
    store: S,
    index_path: String,
    index: ChunkIndex,
    fallback: Option<FlatFileBackend>,
    parents: Vec<ChunkIndex>,
    disk_size: u64,
    r: Result<CasBackend<S>, CorruptIndex>,
    message: String,
    from: Option<String>,
    sizes: (u64, u64),
    k: usize,
    hash: Option<&str>,
)
    requires
        call_ensures(
            start_cas_nbd_server::<S>,
            (store, DiskSource::Existing { index_path, index, fallback }, parents, disk_size),
            r,
        ),
        call_ensures(ChunkIndex::disk_size, (&index,), sizes.0),
        call_ensures(ChunkIndex::get_hash, (&index, k), hash),
        r matches Ok(disk) ==> {
            &&& call_ensures(CasBackend::<S>::source_index_path, (&disk,), from)
            &&& call_ensures(CasBackend::<S>::size, (&disk,), sizes.1)
        },
        r matches Err(e) ==> call_ensures(CorruptIndex::message, (&e,), message),
    ensures
        r is Err <==> (fallback matches Some(f) && f.size > sizes.0),
        r is Err ==> message@ == "fallback file size ("@ + decimal(fallback->Some_0.size as nat)
            + ") exceeds index disk_size ("@ + decimal(sizes.0 as nat)
            + "); index may be corrupt"@,
        r matches Ok(disk) ==> {
            &&& from matches Some(p) && p@ == index_path@
            &&& sizes.1 >= sizes.0 && sizes.1 >= disk_size && (sizes.1 == sizes.0 || sizes.1
                == disk_size)
            &&& disk@.dirty.dom() == Set::<int>::empty()
            &&& disk@.layers.len() == parents@.len() + 1
            &&& forall|i: int|
                0 <= i < parents@.len() ==> #[trigger] disk@.layers[i + 1] == parents@[i]@
            &&& disk@.contents == store.contents()
            &&& disk@.flat_len == match fallback {
                Some(f) => f.size as nat,
                None => 0,
            }
            &&& hash is Some && hash->Some_0@ != "ZERO"@ ==> k < disk@.layers[0].hashes.len()
                && disk@.layers[0].hashes[k as int] == hash->Some_0@
            &&& hash is None || hash->Some_0@ == "ZERO"@ ==> k >= disk@.layers[0].hashes.len()
                || disk@.layers[0].hashes[k as int] == "ZERO"@
        },
{
    if r is Ok {
        let disk = r->Ok_0;
        assert(disk@.dirty.dom() =~= Set::<int>::empty());
        assert(disk@.layers[0].hash_at(k as int) == index@.hash_at(k as int));
        assert(text_of(from) == Some(index_path@));
    }
}

/// Shutting down goes before a connection, and a connection before a warning. The
/// connection that is served, and no other, is the one to interrupt, until its client
/// is gone; a server that stopped stays so.
pub proof fn law_one_client_is_served(
    a: &mut AcceptLoop,
    fd: Option<i32>,
    shutdown: bool,
    r: AcceptAction,
    interrupted: (Option<i32>, Option<i32>),
    b: &mut AcceptLoop,
    after: Option<i32>,
    new: AcceptLoop,
    first: Option<i32>,
)
    requires
        call_ensures(AcceptLoop::to_interrupt, (old(a),), interrupted.0),
        call_ensures(AcceptLoop::accepted, (a, fd, shutdown), r),
        call_ensures(AcceptLoop::to_interrupt, (final(a),), interrupted.1),
        call_ensures(AcceptLoop::client_done, (b,), ()),
        call_ensures(AcceptLoop::to_interrupt, (final(b),), after),
        call_ensures(AcceptLoop::new, (), new),
        call_ensures(AcceptLoop::to_interrupt, (&new,), first),
        fd matches Some(x) ==> x >= 0,
    ensures
        r is Stop <==> shutdown,
        r is Serve <==> !shutdown && fd is Some,
        r is Warn <==> !shutdown && fd is None,
        r is Serve ==> interrupted.1 == fd,
        !(r is Serve) ==> interrupted.1 == interrupted.0,
        final(a).stopped <==> old(a).stopped || r is Stop,
        after is None && final(b).stopped == old(b).stopped,
        first is None && !new.stopped,
{
}

/// The address of a disk ends in the socket.
pub proof fn law_address_names_the_socket<S: ChunkStore>(h: &NbdHandle<S>, uri: String)
    requires
        call_ensures(NbdHandle::<S>::uri, (h,), uri),
    ensures
        uri@ == "nbd+unix:///export?socket="@ + h.socket_path@,
{
}

} // verus!
