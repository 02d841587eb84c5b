//! Content-addressable disk images.

pub mod backend;
pub mod calls;
pub mod chunk;
pub mod disk;
pub mod flush;
pub mod history;
pub mod index;
pub mod server;
pub mod write;
