//! Named Binary Tag codec.
//!
//! A recursive tagged value type ([`value::NbtValue`]) with byte-exact,
//! big-endian encode and decode routines, a named top-level container
//! ([`blob::NbtBlob`]) whose root is always a Compound, and gzip / zlib
//! compressed readings and writings of whole documents.

pub mod blob;
pub mod compress;
pub mod decoding;
pub mod error;
pub mod ints;
pub mod laws;
pub mod model;
pub mod strings;
pub mod value;
