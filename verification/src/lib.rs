//! A read-only filesystem capability and an in-memory store behind it.

pub mod filesystem;
pub mod memfs;
pub mod runtime;
