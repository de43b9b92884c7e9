//! Self-extracting archive containers: a stub executable, a compressed
//! tar-style payload, and a fixed 17-byte footer that locates the payload
//! from the end of the file.
//!
//! The container format and the two algorithms over it are verified: the
//! packer assembles stub, payload and footer byte for byte, and the
//! extractor probes a file's tail, decodes the payload, and plans the
//! writes and the post-extraction command. The compression and archive
//! codecs themselves are outside crates, called through a handful of
//! trusted wrappers in `codec`.

pub mod args;
pub mod bytes_util;
pub mod codec;
pub mod config;
pub mod entries;
pub mod errors;
pub mod extract;
pub mod footer;
pub mod pack;
pub mod paths;
