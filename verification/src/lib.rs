//! Reader for the `.obby` plugin container format.
//!
//! An `.obby` file packages a set of named byte blobs behind a fixed magic
//! tag, a metadata prelude, an optional signature block, and an entry table
//! whose names are length-prefixed strings (base-128 varint length followed
//! by UTF-8 bytes). Entry payloads are laid out contiguously after the table,
//! each one either stored raw or deflate-compressed; equality of an entry's
//! stored and uncompressed lengths is the format's only "not compressed"
//! signal.
//!
//! The crate parses a container held in memory, exposes the entry table, and
//! extracts single entries on demand, decompressing when needed. Opening a
//! file from disk and the WebAssembly bindings live outside this library and
//! hand it a plain byte buffer.

pub mod archive;
pub mod error;
pub mod format;
pub mod laws;
pub mod reader;

pub use archive::{EntryInfo, ObbyArchive};
pub use error::ObbyError;
