//! The in-memory byte source: a borrowed slice with a cursor, from which
//! string and binary payloads can be taken as zero-copy sub-slices.

use vstd::prelude::*;
use vstd::slice::{slice_subrange, slice_to_vec};
use crate::source::{RmpRead, Sealed};

verus! {

/// The slice source was exhausted: a read asked for more bytes than remain.
///
/// This is the only failure an in-memory source can report, so a decode error
/// wrapping it always means "unexpected end of input", never a transport
/// fault.
#[derive(Clone, Copy, Debug, PartialEq, Eq, Structural)]
pub struct BytesReadError {
    /// How many bytes the read asked for.
    pub expected: usize,
    /// How many bytes actually remained.
    pub actual: usize,
    /// The cursor position at which the read was attempted.
    pub position: u64,
}

/// A byte source over a borrowed in-memory buffer.
///
/// Reads advance a cursor over the borrowed slice and never fail while enough
/// bytes remain. Payloads can also be taken as sub-slices of the original
/// buffer, borrowing rather than copying.
pub struct Bytes<'a> {
    buf: &'a [u8],
    pos: usize,
}

impl<'a> Bytes<'a> {
    #[verifier::type_invariant]
    spec fn inv(self) -> bool {
        self.pos <= self.buf@.len()
    }

    /// The whole buffer this source was created over.
    pub closed spec fn backing(&self) -> Seq<u8> {
        self.buf@
    }

    /// How many bytes have been consumed so far.
    pub closed spec fn consumed(&self) -> int {
        self.pos as int
    }

    /// Creates a source positioned at the start of `buf`.
    pub fn new(buf: &'a [u8]) -> (r: Bytes<'a>)
        ensures
            r.remaining() == buf@,
            r.backing() == buf@,
            r.consumed() == 0,
            r.infallible(),
    {
        Bytes { buf, pos: 0 }
    }

    /// The cursor position: how many bytes have been consumed.
    pub fn position(&self) -> (r: u64)
        ensures
            r == self.consumed(),
    {
        proof {
            use_type_invariant(self);
        }
        self.pos as u64
    }

    /// The bytes not yet consumed, as a borrow of the original buffer.
    pub fn remaining_slice(&self) -> (r: &'a [u8])
        ensures
            r@ == self.remaining(),
    {
        proof {
            use_type_invariant(self);
        }
        slice_subrange(self.buf, self.pos, self.buf.len())
    }

    /// Reads exactly `n` bytes as a sub-slice of the original buffer, without
    /// copying, or fails without consuming anything.
    pub fn read_exact_ref(&mut self, n: usize) -> (r: Result<&'a [u8], BytesReadError>)
        ensures
            final(self).backing() == old(self).backing(),
            match r {
                Ok(v) => {
                    &&& old(self).remaining().len() >= n
                    &&& v@ == old(self).remaining().take(n as int)
                    &&& v@ == old(self).backing().subrange(
                        old(self).consumed(),
                        old(self).consumed() + n,
                    )
                    &&& final(self).remaining() == old(self).remaining().skip(n as int)
                    &&& final(self).consumed() == old(self).consumed() + n
                },
                Err(e) => {
                    &&& *final(self) == *old(self)
                    &&& old(self).remaining().len() < n
                    &&& e.expected == n
                    &&& e.actual == old(self).remaining().len()
                    &&& e.position == old(self).consumed()
                },
            },
            r is Ok <==> n <= old(self).remaining().len(),
    {
        proof {
            use_type_invariant(&*self);
        }
        let avail = self.buf.len() - self.pos;
        if n <= avail {
            let out = slice_subrange(self.buf, self.pos, self.pos + n);
            self.pos = self.pos + n;
            proof {
                assert(out@ =~= old(self).remaining().take(n as int));
                assert(self.remaining() =~= old(self).remaining().skip(n as int));
            }
            Ok(out)
        } else {
            Err(BytesReadError { expected: n, actual: avail, position: self.pos as u64 })
        }
    }
}

impl<'a> Sealed for Bytes<'a> {

}

impl<'a> RmpRead for Bytes<'a> {
    type Error = BytesReadError;

    closed spec fn remaining(&self) -> Seq<u8> {
        self.buf@.skip(self.pos as int)
    }

    open spec fn infallible(&self) -> bool {
        true
    }

    fn read_exact(&mut self, n: usize) -> (r: Result<Vec<u8>, BytesReadError>) {
        match self.read_exact_ref(n) {
            Ok(v) => Ok(slice_to_vec(v)),
            Err(e) => Err(e),
        }
    }
}

} // verus!
