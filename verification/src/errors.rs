//! The layered error taxonomy: each error kind names the operation that was
//! attempted when the failure arose, and carries what was actually found.

use vstd::prelude::*;
use crate::marker::Marker;

verus! {

/// Failure to read the single marker byte: the byte source failed before even
/// one byte could be obtained. Wraps the source's own error.
#[derive(Clone, Copy, Debug, PartialEq, Eq)]
pub struct MarkerReadError<E>(pub E);

/// Failure to read one typed value.
#[derive(Clone, Copy, Debug, PartialEq, Eq)]
pub enum ValueReadError<E> {
    /// The byte source failed before the marker byte was obtained.
    InvalidMarkerRead(E),
    /// A marker was obtained, but a payload byte run it calls for could not be
    /// fully read.
    InvalidDataRead(E),
    /// The marker obtained does not belong to the family the caller expected;
    /// carries the marker actually found.
    TypeMismatch(Marker),
}

/// Failure to read one numeric value into a caller-chosen integer type.
#[derive(Clone, Copy, Debug, PartialEq, Eq)]
pub enum NumValueReadError<E> {
    /// The byte source failed before the marker byte was obtained.
    InvalidMarkerRead(E),
    /// A marker was obtained, but a payload byte run it calls for could not be
    /// fully read.
    InvalidDataRead(E),
    /// The marker obtained is not from the integer family; carries the marker
    /// actually found.
    TypeMismatch(Marker),
    /// The marker was integer-compatible, but the decoded magnitude does not
    /// fit the range of the requested type.
    OutOfRange,
}

} // verus!
