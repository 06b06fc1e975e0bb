use vstd::prelude::*;

use core::marker::PhantomData;

use crate::buffer::ByteSource;
use crate::cursor::Cursor;
use crate::endian::{
    decode_u128, decode_u64, lemma_pow256_monotone, lemma_pow256_values, lemma_signed_range, lemma_value_bound,
    sign_extend_i128, sign_extend_i64, signed_value, unsigned_value, BigEndian, ByteOrder,
    LittleEndian,
};
use crate::Error;

verus! {

/// A cursor that decodes integers in the byte order `B`.
pub struct EndianCursor<B, T> {
    cursor: Cursor<T>,
    order: PhantomData<B>,
}

/// A cursor that decodes least-significant byte first.
pub type LittleEndianCursor<T> = EndianCursor<LittleEndian, T>;

/// A cursor that decodes most-significant byte first.
pub type BigEndianCursor<T> = EndianCursor<BigEndian, T>;

impl<B, T> EndianCursor<B, T> {
    /// The raw cursor underneath.
    pub closed spec fn raw(&self) -> Cursor<T> {
        self.cursor
    }

    /// Wraps `inner` with the position at its start.
    pub fn new(inner: T) -> (r: Self)
        ensures
            r.raw().inner_spec() == inner,
            r.raw().pos() == 0,
    {
        EndianCursor { cursor: Cursor::new(inner), order: PhantomData }
    }

    /// The current offset.
    pub fn position(&self) -> (r: usize)
        ensures
            r == self.raw().pos(),
    {
        self.cursor.position()
    }

    /// The raw cursor underneath.
    pub fn get_ref(&self) -> (r: &Cursor<T>)
        ensures
            *r == self.raw(),
    {
        &self.cursor
    }
}

impl<B: ByteOrder, T: ByteSource> EndianCursor<B, T> {
    /// Whether at least `n` unread bytes remain.
    pub open spec fn available(&self, n: nat) -> bool {
        n <= self.raw().remaining().len()
    }

    /// The next `n` unread bytes as an unsigned integer in the order `B`.
    pub open spec fn next_unsigned(&self, n: nat) -> nat {
        unsigned_value(self.raw().remaining().subrange(0, n as int), B::spec_is_big())
    }

    /// The next `n` unread bytes as a two's-complement integer in the order `B`.
    pub open spec fn next_signed(&self, n: nat) -> int {
        signed_value(self.next_unsigned(n), n)
    }

    /// `self` is `prev` with `n` more bytes consumed and the container untouched.
    pub open spec fn consumed(&self, prev: Self, n: nat) -> bool {
        &&& self.raw().pos() == prev.raw().pos() + n
        &&& self.raw().inner_spec() == prev.raw().inner_spec()
    }

    /// Reads an unsigned integer of `nbytes` bytes (one to eight).
    pub fn read_uint(&mut self, nbytes: usize) -> (r: Result<u64, Error>)
        requires
            1 <= nbytes <= 8,
        ensures
            old(self).available(nbytes as nat) ==> r == Ok::<u64, Error>(
                old(self).next_unsigned(nbytes as nat) as u64,
            ) && final(self).consumed(*old(self), nbytes as nat),
            !old(self).available(nbytes as nat) ==> r == Err::<u64, Error>(Error::UnexpectedEof)
                && *final(self) == *old(self),
    {
        let mut buf = [0u8; 8];
        let (head, _) = buf.split_at_mut(nbytes);
        match self.cursor.read_exact(head) {
            Ok(()) => {},
            Err(e) => {
                return Err(e);
            },
        }
        assert(head@.subrange(0, nbytes as int) =~= head@);
        Ok(decode_u64(head, nbytes, B::is_big()))
    }

    /// Reads an unsigned integer of `nbytes` bytes (one to sixteen).
    pub fn read_uint128(&mut self, nbytes: usize) -> (r: Result<u128, Error>)
        requires
            1 <= nbytes <= 16,
        ensures
            old(self).available(nbytes as nat) ==> r == Ok::<u128, Error>(
                old(self).next_unsigned(nbytes as nat) as u128,
            ) && final(self).consumed(*old(self), nbytes as nat),
            !old(self).available(nbytes as nat) ==> r == Err::<u128, Error>(Error::UnexpectedEof)
                && *final(self) == *old(self),
    {
        let mut buf = [0u8; 16];
        let (head, _) = buf.split_at_mut(nbytes);
        match self.cursor.read_exact(head) {
            Ok(()) => {},
            Err(e) => {
                return Err(e);
            },
        }
        assert(head@.subrange(0, nbytes as int) =~= head@);
        Ok(decode_u128(head, nbytes, B::is_big()))
    }

    /// Reads a signed integer of `nbytes` bytes (one to eight), sign-extended from
    /// the top bit of its most significant byte.
    pub fn read_int(&mut self, nbytes: usize) -> (r: Result<i64, Error>)
        requires
            1 <= nbytes <= 8,
        ensures
            old(self).available(nbytes as nat) ==> r == Ok::<i64, Error>(
                old(self).next_signed(nbytes as nat) as i64,
            ) && final(self).consumed(*old(self), nbytes as nat),
            !old(self).available(nbytes as nat) ==> r == Err::<i64, Error>(Error::UnexpectedEof)
                && *final(self) == *old(self),
    {
        proof {
            if old(self).available(nbytes as nat) {
                lemma_value_bound(
                    old(self).raw().remaining().subrange(0, nbytes as int),
                    B::spec_is_big(),
                );
                lemma_pow256_monotone(nbytes as nat, 8);
                lemma_pow256_values();
                lemma_signed_range(old(self).next_unsigned(nbytes as nat), nbytes as nat);
            }
        }
        match self.read_uint(nbytes) {
            Ok(v) => Ok(sign_extend_i64(v, nbytes)),
            Err(e) => Err(e),
        }
    }

    /// Reads a signed integer of `nbytes` bytes (one to sixteen), sign-extended from
    /// the top bit of its most significant byte.
    pub fn read_int128(&mut self, nbytes: usize) -> (r: Result<i128, Error>)
        requires
            1 <= nbytes <= 16,
        ensures
            old(self).available(nbytes as nat) ==> r == Ok::<i128, Error>(
                old(self).next_signed(nbytes as nat) as i128,
            ) && final(self).consumed(*old(self), nbytes as nat),
            !old(self).available(nbytes as nat) ==> r == Err::<i128, Error>(Error::UnexpectedEof)
                && *final(self) == *old(self),
    {
        proof {
            if old(self).available(nbytes as nat) {
                lemma_value_bound(
                    old(self).raw().remaining().subrange(0, nbytes as int),
                    B::spec_is_big(),
                );
                lemma_pow256_monotone(nbytes as nat, 16);
                lemma_pow256_values();
                lemma_signed_range(old(self).next_unsigned(nbytes as nat), nbytes as nat);
            }
        }
        match self.read_uint128(nbytes) {
            Ok(v) => Ok(sign_extend_i128(v, nbytes)),
            Err(e) => Err(e),
        }
    }

    /// Reads a 8-bit unsigned integer.
    pub fn read_u8(&mut self) -> (r: Result<u8, Error>)
        ensures
            old(self).available(1) ==> r == Ok::<u8, Error>(old(self).next_unsigned(1) as u8)
                && final(self).consumed(*old(self), 1),
            !old(self).available(1) ==> r == Err::<u8, Error>(Error::UnexpectedEof)
                && *final(self) == *old(self),
    {
        proof {
            if old(self).available(1) {
                lemma_value_bound(old(self).raw().remaining().subrange(0, 1), B::spec_is_big());
                lemma_pow256_values();
            }
        }
        match self.read_uint(1) {
            Ok(v) => Ok(v as u8),
            Err(e) => Err(e),
        }
    }

    /// Reads a 8-bit signed integer.
    pub fn read_i8(&mut self) -> (r: Result<i8, Error>)
        ensures
            old(self).available(1) ==> r == Ok::<i8, Error>(old(self).next_signed(1) as i8)
                && final(self).consumed(*old(self), 1),
            !old(self).available(1) ==> r == Err::<i8, Error>(Error::UnexpectedEof)
                && *final(self) == *old(self),
    {
        proof {
            if old(self).available(1) {
                lemma_value_bound(old(self).raw().remaining().subrange(0, 1), B::spec_is_big());
                lemma_pow256_values();
                lemma_signed_range(old(self).next_unsigned(1), 1);
            }
        }
        match self.read_int(1) {
            Ok(v) => Ok(v as i8),
            Err(e) => Err(e),
        }
    }

    /// Reads a 16-bit unsigned integer.
    pub fn read_u16(&mut self) -> (r: Result<u16, Error>)
        ensures
            old(self).available(2) ==> r == Ok::<u16, Error>(old(self).next_unsigned(2) as u16)
                && final(self).consumed(*old(self), 2),
            !old(self).available(2) ==> r == Err::<u16, Error>(Error::UnexpectedEof)
                && *final(self) == *old(self),
    {
        proof {
            if old(self).available(2) {
                lemma_value_bound(old(self).raw().remaining().subrange(0, 2), B::spec_is_big());
                lemma_pow256_values();
            }
        }
        match self.read_uint(2) {
            Ok(v) => Ok(v as u16),
            Err(e) => Err(e),
        }
    }

    /// Reads a 16-bit signed integer.
    pub fn read_i16(&mut self) -> (r: Result<i16, Error>)
        ensures
            old(self).available(2) ==> r == Ok::<i16, Error>(old(self).next_signed(2) as i16)
                && final(self).consumed(*old(self), 2),
            !old(self).available(2) ==> r == Err::<i16, Error>(Error::UnexpectedEof)
                && *final(self) == *old(self),
    {
        proof {
            if old(self).available(2) {
                lemma_value_bound(old(self).raw().remaining().subrange(0, 2), B::spec_is_big());
                lemma_pow256_values();
                lemma_signed_range(old(self).next_unsigned(2), 2);
            }
        }
        match self.read_int(2) {
            Ok(v) => Ok(v as i16),
            Err(e) => Err(e),
        }
    }

    /// Reads a 24-bit unsigned integer, zero-extended to `u32`.
    pub fn read_u24(&mut self) -> (r: Result<u32, Error>)
        ensures
            old(self).available(3) ==> r == Ok::<u32, Error>(old(self).next_unsigned(3) as u32)
                && final(self).consumed(*old(self), 3),
            !old(self).available(3) ==> r == Err::<u32, Error>(Error::UnexpectedEof)
                && *final(self) == *old(self),
    {
        proof {
            if old(self).available(3) {
                lemma_value_bound(old(self).raw().remaining().subrange(0, 3), B::spec_is_big());
                lemma_pow256_values();
            }
        }
        match self.read_uint(3) {
            Ok(v) => Ok(v as u32),
            Err(e) => Err(e),
        }
    }

    /// Reads a 24-bit signed integer, sign-extended to `i32`.
    pub fn read_i24(&mut self) -> (r: Result<i32, Error>)
        ensures
            old(self).available(3) ==> r == Ok::<i32, Error>(old(self).next_signed(3) as i32)
                && final(self).consumed(*old(self), 3),
            !old(self).available(3) ==> r == Err::<i32, Error>(Error::UnexpectedEof)
                && *final(self) == *old(self),
    {
        proof {
            if old(self).available(3) {
                lemma_value_bound(old(self).raw().remaining().subrange(0, 3), B::spec_is_big());
                lemma_pow256_values();
                lemma_signed_range(old(self).next_unsigned(3), 3);
            }
        }
        match self.read_int(3) {
            Ok(v) => Ok(v as i32),
            Err(e) => Err(e),
        }
    }

    /// Reads a 32-bit unsigned integer.
    pub fn read_u32(&mut self) -> (r: Result<u32, Error>)
        ensures
            old(self).available(4) ==> r == Ok::<u32, Error>(old(self).next_unsigned(4) as u32)
                && final(self).consumed(*old(self), 4),
            !old(self).available(4) ==> r == Err::<u32, Error>(Error::UnexpectedEof)
                && *final(self) == *old(self),
    {
        proof {
            if old(self).available(4) {
                lemma_value_bound(old(self).raw().remaining().subrange(0, 4), B::spec_is_big());
                lemma_pow256_values();
            }
        }
        match self.read_uint(4) {
            Ok(v) => Ok(v as u32),
            Err(e) => Err(e),
        }
    }

    /// Reads a 32-bit signed integer.
    pub fn read_i32(&mut self) -> (r: Result<i32, Error>)
        ensures
            old(self).available(4) ==> r == Ok::<i32, Error>(old(self).next_signed(4) as i32)
                && final(self).consumed(*old(self), 4),
            !old(self).available(4) ==> r == Err::<i32, Error>(Error::UnexpectedEof)
                && *final(self) == *old(self),
    {
        proof {
            if old(self).available(4) {
                lemma_value_bound(old(self).raw().remaining().subrange(0, 4), B::spec_is_big());
                lemma_pow256_values();
                lemma_signed_range(old(self).next_unsigned(4), 4);
            }
        }
        match self.read_int(4) {
            Ok(v) => Ok(v as i32),
            Err(e) => Err(e),
        }
    }

    /// Reads a 48-bit unsigned integer, zero-extended to `u64`.
    pub fn read_u48(&mut self) -> (r: Result<u64, Error>)
        ensures
            old(self).available(6) ==> r == Ok::<u64, Error>(old(self).next_unsigned(6) as u64)
                && final(self).consumed(*old(self), 6),
            !old(self).available(6) ==> r == Err::<u64, Error>(Error::UnexpectedEof)
                && *final(self) == *old(self),
    {
        proof {
            if old(self).available(6) {
                lemma_value_bound(old(self).raw().remaining().subrange(0, 6), B::spec_is_big());
                lemma_pow256_values();
            }
        }
        match self.read_uint(6) {
            Ok(v) => Ok(v),
            Err(e) => Err(e),
        }
    }

    /// Reads a 48-bit signed integer, sign-extended to `i64`.
    pub fn read_i48(&mut self) -> (r: Result<i64, Error>)
        ensures
            old(self).available(6) ==> r == Ok::<i64, Error>(old(self).next_signed(6) as i64)
                && final(self).consumed(*old(self), 6),
            !old(self).available(6) ==> r == Err::<i64, Error>(Error::UnexpectedEof)
                && *final(self) == *old(self),
    {
        proof {
            if old(self).available(6) {
                lemma_value_bound(old(self).raw().remaining().subrange(0, 6), B::spec_is_big());
                lemma_pow256_values();
                lemma_signed_range(old(self).next_unsigned(6), 6);
            }
        }
        match self.read_int(6) {
            Ok(v) => Ok(v),
            Err(e) => Err(e),
        }
    }

    /// Reads a 64-bit unsigned integer.
    pub fn read_u64(&mut self) -> (r: Result<u64, Error>)
        ensures
            old(self).available(8) ==> r == Ok::<u64, Error>(old(self).next_unsigned(8) as u64)
                && final(self).consumed(*old(self), 8),
            !old(self).available(8) ==> r == Err::<u64, Error>(Error::UnexpectedEof)
                && *final(self) == *old(self),
    {
        proof {
            if old(self).available(8) {
                lemma_value_bound(old(self).raw().remaining().subrange(0, 8), B::spec_is_big());
                lemma_pow256_values();
            }
        }
        match self.read_uint(8) {
            Ok(v) => Ok(v),
            Err(e) => Err(e),
        }
    }

    /// Reads a 64-bit signed integer.
    pub fn read_i64(&mut self) -> (r: Result<i64, Error>)
        ensures
            old(self).available(8) ==> r == Ok::<i64, Error>(old(self).next_signed(8) as i64)
                && final(self).consumed(*old(self), 8),
            !old(self).available(8) ==> r == Err::<i64, Error>(Error::UnexpectedEof)
                && *final(self) == *old(self),
    {
        proof {
            if old(self).available(8) {
                lemma_value_bound(old(self).raw().remaining().subrange(0, 8), B::spec_is_big());
                lemma_pow256_values();
                lemma_signed_range(old(self).next_unsigned(8), 8);
            }
        }
        match self.read_int(8) {
            Ok(v) => Ok(v),
            Err(e) => Err(e),
        }
    }

    /// Reads a 128-bit unsigned integer.
    pub fn read_u128(&mut self) -> (r: Result<u128, Error>)
        ensures
            old(self).available(16) ==> r == Ok::<u128, Error>(old(self).next_unsigned(16) as u128)
                && final(self).consumed(*old(self), 16),
            !old(self).available(16) ==> r == Err::<u128, Error>(Error::UnexpectedEof)
                && *final(self) == *old(self),
    {
        proof {
            if old(self).available(16) {
                lemma_value_bound(old(self).raw().remaining().subrange(0, 16), B::spec_is_big());
                lemma_pow256_values();
            }
        }
        match self.read_uint128(16) {
            Ok(v) => Ok(v),
            Err(e) => Err(e),
        }
    }

    /// Reads a 128-bit signed integer.
    pub fn read_i128(&mut self) -> (r: Result<i128, Error>)
        ensures
            old(self).available(16) ==> r == Ok::<i128, Error>(old(self).next_signed(16) as i128)
                && final(self).consumed(*old(self), 16),
            !old(self).available(16) ==> r == Err::<i128, Error>(Error::UnexpectedEof)
                && *final(self) == *old(self),
    {
        proof {
            if old(self).available(16) {
                lemma_value_bound(old(self).raw().remaining().subrange(0, 16), B::spec_is_big());
                lemma_pow256_values();
                lemma_signed_range(old(self).next_unsigned(16), 16);
            }
        }
        match self.read_int128(16) {
            Ok(v) => Ok(v),
            Err(e) => Err(e),
        }
    }
}

} // verus!
