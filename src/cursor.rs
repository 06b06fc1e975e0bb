use vstd::prelude::*;

use crate::buffer::{ByteSink, ByteSource};
use crate::Error;

verus! {

/// A read/write position over an owned byte container.
pub struct Cursor<T> {
    inner: T,
    position: usize,
}

impl<T> Cursor<T> {
    /// The container the cursor owns.
    pub closed spec fn inner_spec(&self) -> T {
        self.inner
    }

    /// The offset of the next read or write; it may lie past the end.
    pub closed spec fn pos(&self) -> usize {
        self.position
    }

    /// Wraps `inner` with the position at its start.
    pub fn new(inner: T) -> (r: Self)
        ensures
            r.inner_spec() == inner,
            r.pos() == 0,
    {
        Cursor { inner, position: 0 }
    }

    /// Moves the position to `p`; a position past the end is allowed and reads as the end.
    pub fn set_position(&mut self, p: usize)
        ensures
            final(self).pos() == p,
            final(self).inner_spec() == old(self).inner_spec(),
    {
        self.position = p;
    }

    /// The container the cursor owns.
    pub fn get_ref(&self) -> (r: &T)
        ensures
            *r == self.inner_spec(),
    {
        &self.inner
    }

    /// The current offset.
    pub fn position(&self) -> (r: usize)
        ensures
            r == self.pos(),
    {
        self.position
    }
}

/// Copies the first `n` bytes of `src` over the first `n` bytes of `dst`.
fn copy_prefix(dst: &mut [u8], src: &[u8], n: usize)
    requires
        n <= old(dst)@.len(),
        n <= src@.len(),
    ensures
        final(dst)@ == src@.subrange(0, n as int) + old(dst)@.subrange(n as int, old(dst)@.len() as int),
{
    let mut i: usize = 0;
    while i < n
        invariant
            i <= n,
            n <= dst@.len(),
            n <= src@.len(),
            dst@.len() == old(dst)@.len(),
            forall|k: int| 0 <= k < i ==> dst@[k] == src@[k],
            forall|k: int| n <= k < dst@.len() ==> dst@[k] == old(dst)@[k],
        decreases n - i,
    {
        dst[i] = src[i];
        i = i + 1;
    }
    assert(dst@ =~= src@.subrange(0, n as int) + old(dst)@.subrange(n as int, old(dst)@.len() as int));
}

impl<T: ByteSource> Cursor<T> {
    /// The bytes of the container.
    pub open spec fn bytes(&self) -> Seq<u8> {
        self.inner_spec().bytes()
    }

    /// Where the unread part begins: the position, clamped to the length.
    pub open spec fn start(&self) -> int {
        if self.pos() <= self.bytes().len() {
            self.pos() as int
        } else {
            self.bytes().len() as int
        }
    }

    /// The bytes from the clamped position to the end.
    pub open spec fn remaining(&self) -> Seq<u8> {
        self.bytes().subrange(self.start(), self.bytes().len() as int)
    }

    /// How many bytes a best-effort transfer of `n` bytes moves: `n`, capped by
    /// what remains.
    pub open spec fn transfer_len(&self, n: nat) -> nat {
        if n <= self.remaining().len() {
            n
        } else {
            self.remaining().len()
        }
    }

    /// The container's bytes after a best-effort write of `data` at the position.
    pub open spec fn after_write(&self, data: Seq<u8>) -> Seq<u8> {
        let n = self.transfer_len(data.len());
        let b = self.bytes();
        b.subrange(0, self.start()) + data.subrange(0, n as int) + b.subrange(
            self.start() + n,
            b.len() as int,
        )
    }

    /// The unread suffix of the container; empty once the position is at or past the end.
    pub fn remaining_slice(&self) -> (r: &[u8])
        ensures
            r@ == self.remaining(),
            self.bytes().len() <= usize::MAX,
    {
        let s = self.inner.as_byte_slice();
        let start = if self.position <= s.len() { self.position } else { s.len() };
        let (_, tail) = s.split_at(start);
        tail
    }

    /// Copies as many unread bytes as fit into `buf`, advancing past them.
    /// Returns how many were copied; never fails.
    pub fn read(&mut self, buf: &mut [u8]) -> (r: Result<usize, Error>)
        ensures
            ({
                let n = old(self).transfer_len(old(buf)@.len());
                &&& r == Ok::<usize, Error>(n as usize)
                &&& final(buf)@ == old(self).remaining().subrange(0, n as int)
                    + old(buf)@.subrange(n as int, old(buf)@.len() as int)
                &&& final(self).pos() == old(self).pos() + n
                &&& final(self).inner_spec() == old(self).inner_spec()
            }),
    {
        let slice = self.remaining_slice();
        let amt = if buf.len() <= slice.len() { buf.len() } else { slice.len() };
        copy_prefix(buf, slice, amt);
        self.position = self.position + amt;
        Ok(amt)
    }

    /// Fills `buf` entirely from the unread bytes and advances past them, or fails
    /// with `UnexpectedEof`, changing nothing, when fewer than `buf.len()` remain.
    pub fn read_exact(&mut self, buf: &mut [u8]) -> (r: Result<(), Error>)
        ensures
            old(buf)@.len() <= old(self).remaining().len() ==> {
                &&& r == Ok::<(), Error>(())
                &&& final(buf)@ == old(self).remaining().subrange(0, old(buf)@.len() as int)
                &&& final(self).pos() == old(self).pos() + old(buf)@.len()
                &&& final(self).inner_spec() == old(self).inner_spec()
            },
            old(buf)@.len() > old(self).remaining().len() ==> {
                &&& r == Err::<(), Error>(Error::UnexpectedEof)
                &&& final(buf)@ == old(buf)@
                &&& *final(self) == *old(self)
            },
    {
        let slice = self.remaining_slice();
        if buf.len() > slice.len() {
            return Err(Error::UnexpectedEof);
        }
        let n = buf.len();
        copy_prefix(buf, slice, n);
        assert(buf@ =~= slice@.subrange(0, n as int));
        self.position = self.position + n;
        Ok(())
    }
}

impl<T: ByteSink> Cursor<T> {
    /// The unread suffix of the container, writable in place. Whatever is written
    /// through it lands in the container after the first `start()` bytes.
    pub fn remaining_slice_mut(&mut self) -> (r: &mut [u8])
        ensures
            r@ == old(self).remaining(),
            old(self).bytes().len() <= usize::MAX,
            final(self).pos() == old(self).pos(),
            final(self).bytes() == old(self).bytes().subrange(0, old(self).start()) + final(r)@,
    {
        let len = self.inner.as_byte_slice().len();
        let start = if self.position <= len { self.position } else { len };
        let s = self.inner.as_byte_slice_mut();
        let (_, tail) = s.split_at_mut(start);
        tail
    }

    /// Copies as many bytes of `data` as fit in the unwritten part of the container,
    /// advancing past them. Returns how many were written; never fails.
    pub fn write(&mut self, data: &[u8]) -> (r: Result<usize, Error>)
        ensures
            ({
                let n = old(self).transfer_len(data@.len());
                &&& r == Ok::<usize, Error>(n as usize)
                &&& final(self).bytes() == old(self).after_write(data@)
                &&& final(self).pos() == old(self).pos() + n
            }),
    {
        let slice = self.remaining_slice_mut();
        let amt = if data.len() <= slice.len() { data.len() } else { slice.len() };
        copy_prefix(slice, data, amt);
        self.position = self.position + amt;
        Ok(amt)
    }
}

/// Writing `data` at the start of a container that can hold it, then reading
/// `data.len()` bytes from the start of a fresh cursor over the resulting bytes,
/// gives `data` back: the write moves all of it, and the reader finds it unread.
pub proof fn lemma_write_read_round_trip<W: ByteSource, R: ByteSource>(
    writer: Cursor<W>,
    reader: Cursor<R>,
    data: Seq<u8>,
)
    requires
        writer.pos() == 0,
        data.len() <= writer.bytes().len(),
        reader.pos() == 0,
        reader.bytes() == writer.after_write(data),
    ensures
        writer.transfer_len(data.len()) == data.len(),
        data.len() <= reader.remaining().len(),
        reader.remaining().subrange(0, data.len() as int) == data,
{
    assert(writer.remaining() =~= writer.bytes());
    assert(reader.remaining() =~= reader.bytes());
    assert(reader.remaining().subrange(0, data.len() as int) =~= data);
}

/// The queries do not move the cursor: what `position` and `remaining_slice`
/// report is fixed by the cursor alone, so repeating them gives equal answers.
pub proof fn lemma_queries_idempotent<T: ByteSource>(
    c: Cursor<T>,
    p1: usize,
    p2: usize,
    s1: Seq<u8>,
    s2: Seq<u8>,
)
    requires
        p1 == c.pos(),
        p2 == c.pos(),
        s1 == c.remaining(),
        s2 == c.remaining(),
    ensures
        p1 == p2,
        s1 == s2,
{
}

} // verus!
