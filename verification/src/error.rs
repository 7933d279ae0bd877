//! Error kinds shared by the readers and decoders of this crate.

use vstd::prelude::*;

verus! {

/// The kind of an error raised while reading or decoding a stream.
#[derive(Debug, Clone, Copy, PartialEq, Eq, Structural)]
pub enum ErrorKind {
    /// Malformed input: a bad sync byte, an out-of-range field, an
    /// inconsistent length, or an unexpected end of stream inside a
    /// length-declared PES packet.
    InvalidInput,
    /// API misuse, such as marking an already marked reader.
    Other,
    /// The underlying byte source failed.
    Io,
}

} // verus!
