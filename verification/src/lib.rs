//! A verified library for reading, constructing, mutating, and writing CUDA
//! fatbinary container files: multi-entry archives that bundle device-code
//! artifacts (ELF cubins and PTX source) together with per-entry metadata.
//!
//! The library works on in-memory byte slices. [`FatBinary::read`] decodes a
//! container from bytes, [`FatBinary::write`] re-emits one, and
//! [`FatBinaryEntry`] models a single entry: its header fields, optional
//! identifier and ptxas-option strings, and payload bytes. Compressed entry
//! payloads use an LZ77-style token stream handled by [`decompress`].

pub mod bytes;
pub mod codec;
pub mod error;
pub mod fatbin;
pub mod header;
pub mod lz77;
mod text;

pub use lz77::decompress;
pub use error::FatBinaryError;
pub use fatbin::FatBinary;
pub use fatbin::FatBinaryEntry;
pub use header::FatBinaryEntryHeader;
pub use header::Host;
pub use header::Producer;
