//! The byte-source capability: an ordered, forward-only supply of bytes that
//! the decoders draw from.

use vstd::prelude::*;

verus! {

/// Marks the blessed byte-source implementations.
///
/// The source capability is not meant as an open extension point: its helper
/// operations are an implementation detail. [`super::bytes::Bytes`] is the
/// built-in in-memory implementation; a streaming implementation over an I/O
/// handle lives outside the verified library, and nothing checks that such an
/// outside implementation honours the contracts of [`RmpRead`].
pub trait Sealed {

}

/// A type the decoders can read from.
///
/// A source models an ordered, forward-only byte sequence: [`RmpRead::remaining`]
/// is the sequence of bytes it will yield, and every successful read consumes
/// a prefix of it, never to be revisited. A source whose [`RmpRead::infallible`]
/// holds (an in-memory source) fails a read exactly when fewer bytes remain
/// than were asked for; a streaming source may also fail for reasons of its
/// transport, reported through its own error type.
pub trait RmpRead: Sealed + Sized {
    type Error;

    /// The bytes this source will yield, in order. The in-memory source
    /// defines this from its buffer and cursor; an implementation outside the
    /// library is never verified against this model and inherits a default
    /// that models a source already exhausted.
    open spec fn remaining(&self) -> Seq<u8> {
        Seq::empty()
    }

    /// Whether reads within `remaining` always succeed. The in-memory source
    /// is infallible; a streaming source may fail at any point, which is the
    /// default.
    open spec fn infallible(&self) -> bool {
        false
    }

    /// Reads exactly `n` bytes, or fails without consuming any: the read is
    /// atomic as observed by the caller.
    fn read_exact(&mut self, n: usize) -> (r: Result<Vec<u8>, Self::Error>)
        ensures
            final(self).infallible() == old(self).infallible(),
            match r {
                Ok(v) => {
                    &&& old(self).remaining().len() >= n
                    &&& v@ == old(self).remaining().take(n as int)
                    &&& final(self).remaining() == old(self).remaining().skip(n as int)
                },
                Err(_) => final(self).remaining() == old(self).remaining(),
            },
            old(self).infallible() && n <= old(self).remaining().len() ==> r is Ok,
    ;

    /// Reads a single byte.
    fn read_u8(&mut self) -> (r: Result<u8, Self::Error>)
        ensures
            final(self).infallible() == old(self).infallible(),
            match r {
                Ok(b) => {
                    &&& old(self).remaining().len() >= 1
                    &&& b == old(self).remaining()[0]
                    &&& final(self).remaining() == old(self).remaining().skip(1)
                },
                Err(_) => final(self).remaining() == old(self).remaining(),
            },
            old(self).infallible() && old(self).remaining().len() >= 1 ==> r is Ok,
    {
        match self.read_exact(1) {
            Ok(v) => Ok(v[0]),
            Err(e) => Err(e),
        }
    }
}

} // verus!
