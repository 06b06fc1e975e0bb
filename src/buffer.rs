use vstd::prelude::*;

verus! {

/// A container that can be viewed as a sequence of bytes.
pub trait ByteSource {
    /// The bytes the container holds.
    spec fn bytes(&self) -> Seq<u8>;

    fn as_byte_slice(&self) -> (r: &[u8])
        ensures
            r@ == self.bytes(),
    ;
}

/// A container whose bytes can be overwritten in place (its length is fixed).
pub trait ByteSink: ByteSource {
    fn as_byte_slice_mut(&mut self) -> (r: &mut [u8])
        ensures
            r@ == old(self).bytes(),
            final(self).bytes() == final(r)@,
    ;
}

impl<const N: usize> ByteSource for [u8; N] {
    open spec fn bytes(&self) -> Seq<u8> {
        self@
    }

    fn as_byte_slice(&self) -> (r: &[u8]) {
        self.as_slice()
    }
}

impl<const N: usize> ByteSink for [u8; N] {
    fn as_byte_slice_mut(&mut self) -> (r: &mut [u8]) {
        self
    }
}

impl ByteSource for Vec<u8> {
    open spec fn bytes(&self) -> Seq<u8> {
        self@
    }

    fn as_byte_slice(&self) -> (r: &[u8]) {
        self.as_slice()
    }
}

impl ByteSink for Vec<u8> {
    fn as_byte_slice_mut(&mut self) -> (r: &mut [u8]) {
        self.as_mut_slice()
    }
}

impl<'a> ByteSource for &'a [u8] {
    open spec fn bytes(&self) -> Seq<u8> {
        (**self)@
    }

    fn as_byte_slice(&self) -> (r: &[u8]) {
        *self
    }
}

impl<'a> ByteSource for &'a mut [u8] {
    open spec fn bytes(&self) -> Seq<u8> {
        (**self)@
    }

    fn as_byte_slice(&self) -> (r: &[u8]) {
        &**self
    }
}

impl<'a> ByteSink for &'a mut [u8] {
    fn as_byte_slice_mut(&mut self) -> (r: &mut [u8]) {
        &mut **self
    }
}

} // verus!
