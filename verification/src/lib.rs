//! Shuru runs sandboxes in virtual machines. This crate holds what decides and
//! computes: the chunk store and the layered disk behind a machine, the boot
//! sequence, the command loop and sessions of a sandbox, and the download,
//! upgrade and configuration rules of the command line.

pub mod bytes;
pub mod cli;
pub mod map;
pub mod sdk;
pub mod store;
pub mod text;
