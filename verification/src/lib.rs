//! Storage engine for region files: containers that pack up to 1024 chunks
//! of a 32x32 grid behind a fixed header, with space handed out in sectors
//! of 4096 bytes.
//!
//! The engine works on the bytes of a region file held in memory. Reading a
//! file from disk and writing it back is left to the caller.

pub mod bitmap;
pub mod bytes;
pub mod codec;
pub mod consistency;
pub mod endian;
pub mod error;
pub mod format;
pub mod laws;
pub mod metadata;
pub mod model;
pub mod provider;
pub mod region;

pub use crate::error::{ChunkLoadError, ChunkSaveError};
pub use crate::provider::AnvilChunkProvider;
