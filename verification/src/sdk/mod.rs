//! The sandbox: configuration, boot, commands, checkpoints and sessions.

pub mod boot;
pub mod checkpoint;
pub mod command;
pub mod config;
pub mod session;
pub mod vm_loop;
