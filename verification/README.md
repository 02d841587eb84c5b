# Shuru

Shuru boots sandboxes in virtual machines. This crate is the part of it that
decides and computes, written in Verus: its functions state what they do and are
proved to do it. What is believed without proof is what five functions of the
standard library and of other crates do: `String::push`, `String::from_utf8` and
`String::from_utf8_lossy` (`src/text.rs`), BLAKE3 hashing (`src/store/chunk.rs`)
and PEM parsing (`src/cli/certs.rs`), and that a chunk store does what the trait
`ChunkStore` says.

- `src/store`: content-addressed chunks, chunk indexes and their file format, the
  layered disk (unsaved chunks over an index, its parents and a flat file),
  flushing, checkpoints, what all operations keep, and the server that offers the
  disk as a block device.
- `src/sdk`: the configuration of a sandbox, its boot sequence, the commands that
  it takes, checkpoints, and interactive sessions.
- `src/cli`: the OS image, upgrades, CA bundles and the configuration file.
- `src/bytes.rs`, `src/map.rs`, `src/text.rs`: byte order, string maps and text.
- `tests`: tests of the library from the outside.
- `app`: files, sockets, threads, HTTP and the virtual machine around the library.

Work that alternates with the outside (booting, upgrading, downloading,
checkpointing) is a state machine: `action` says what to do next, and `step` takes
up what came of it. Reads of the flat file under a disk are planned by
`CasBackend::flat_reads` and handed to `read` and `write` as replies.
