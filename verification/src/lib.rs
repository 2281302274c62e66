//! Selective-range content hashing for JPEG and MP4 media.
//!
//! The crate walks the structure of a media file, classifies each
//! structural unit as hashable or excluded (provenance records are
//! excluded), and digests only the hashable byte ranges, so that
//! embedding or stripping a provenance record does not change the
//! content digest.

pub mod client;
pub mod compare;
pub mod hashing;
pub mod jpeg;
pub mod mp4;
pub mod queue;
pub mod ranges;
pub mod signer;
