//! A bounds-checked cursor over a fixed-size byte buffer, and an endian-aware
//! decoder of integers built on top of it.
use vstd::prelude::*;

pub mod buffer;
pub mod cursor;
pub mod endian;
pub mod endian_cursor;

pub use buffer::{ByteSink, ByteSource};
pub use cursor::Cursor;
pub use endian::{BigEndian, ByteOrder, LittleEndian};
pub use endian_cursor::{BigEndianCursor, EndianCursor, LittleEndianCursor};

verus! {

/// What can go wrong when reading from a cursor.
#[derive(Debug, PartialEq, Eq, Structural, Clone, Copy)]
pub enum Error {
    /// Fewer bytes remain than an exact-length read asked for.
    UnexpectedEof,
    /// Reserved for validation on top of the raw decoding.
    InvalidInput,
}

/// Does nothing; kept as a public entry point for smoke-testing the build.
pub fn test() {
}

} // verus!
