//! Devshell workspace logic: guest paths, guest file operations, VM configuration and sessions.

pub mod vm;
pub mod workspace;
