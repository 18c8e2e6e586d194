//! Verified core of a pluggable virtual filesystem for memory introspection.
pub mod error;
pub mod text;
pub mod path;
pub mod protocol;
pub mod buffers;
pub mod io;
pub mod handles;
pub mod fs;
pub mod backend;
pub mod node;
pub mod plugins;
pub mod procfs;
pub mod memmaps;
pub mod client;
pub mod cli;
pub mod daemon;
pub mod session;
pub mod pool;
pub mod remote;
pub mod maps;
