//! The command line: the OS image, upgrades and the configuration file.

pub mod assets;
pub mod certs;
pub mod config;
pub mod progress;
pub mod upgrade;
pub mod version;
