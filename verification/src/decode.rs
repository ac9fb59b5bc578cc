//! The primitive decoders: each reads one marker from a byte source, matches
//! it against the family the caller expects, reads the fixed-width payload the
//! marker implies, and returns the validated value — or a typed error that
//! names the marker actually found, consuming nothing beyond that one marker
//! byte on a mismatch.

use vstd::prelude::*;
use crate::errors::{MarkerReadError, NumValueReadError, ValueReadError};
use crate::marker::{lemma_marker_byte_round_trip, marker_byte, marker_of, marker_wf, Marker};
use crate::num::{
    be_bytes, be_sint, be_uint, lemma_be_sint_of_sbe_bytes, lemma_be_uint_bound,
    lemma_be_uint_of_be_bytes, lemma_pow256_increases, pow256, sbe_bytes, TryFromInt,
};
use crate::source::RmpRead;
use crate::bytes::{Bytes, BytesReadError};
use vstd::slice::slice_index_get;

verus! {

/// Whether a marker belongs to the integer family: the markers the generic
/// integer decoder accepts.
pub open spec fn is_int_marker(m: Marker) -> bool {
    match m {
        Marker::FixPos(_) => true,
        Marker::FixNeg(_) => true,
        Marker::U8 | Marker::U16 | Marker::U32 | Marker::U64 => true,
        Marker::I8 | Marker::I16 | Marker::I32 | Marker::I64 => true,
        _ => false,
    }
}

/// How many payload bytes an integer-family marker implies.
pub open spec fn int_width(m: Marker) -> nat {
    match m {
        Marker::U8 | Marker::I8 => 1,
        Marker::U16 | Marker::I16 => 2,
        Marker::U32 | Marker::I32 => 4,
        Marker::U64 | Marker::I64 => 8,
        _ => 0,
    }
}

/// The mathematical value an integer-family marker with payload `p` encodes.
pub open spec fn int_value(m: Marker, p: Seq<u8>) -> int {
    match m {
        Marker::FixPos(v) => v as int,
        Marker::FixNeg(v) => v as int,
        Marker::U8 | Marker::U16 | Marker::U32 | Marker::U64 => be_uint(p),
        Marker::I8 | Marker::I16 | Marker::I32 | Marker::I64 => be_sint(p),
        _ => 0,
    }
}

/// How many bytes the integer value at the head of `s` occupies, marker
/// included.
pub open spec fn int_frame_len(s: Seq<u8>) -> int {
    1 + int_width(marker_of(s[0])) as int
}

/// Whether `s` starts with a complete encoded integer.
pub open spec fn has_int(s: Seq<u8>) -> bool {
    s.len() >= 1 && is_int_marker(marker_of(s[0])) && s.len() >= int_frame_len(s)
}

/// The mathematical value of the encoded integer at the head of `s`.
pub open spec fn decoded_int(s: Seq<u8>) -> int {
    int_value(marker_of(s[0]), s.subrange(1, int_frame_len(s)))
}

/// Carries a value-read failure over into a numeric-read failure, kind for
/// kind.
fn num_err<E>(e: ValueReadError<E>) -> (r: NumValueReadError<E>)
    ensures
        match e {
            ValueReadError::InvalidMarkerRead(x) => r == NumValueReadError::<E>::InvalidMarkerRead(
                x,
            ),
            ValueReadError::InvalidDataRead(x) => r == NumValueReadError::<E>::InvalidDataRead(x),
            ValueReadError::TypeMismatch(m) => r == NumValueReadError::<E>::TypeMismatch(m),
        },
{
    match e {
        ValueReadError::InvalidMarkerRead(x) => NumValueReadError::InvalidMarkerRead(x),
        ValueReadError::InvalidDataRead(x) => NumValueReadError::InvalidDataRead(x),
        ValueReadError::TypeMismatch(m) => NumValueReadError::TypeMismatch(m),
    }
}

/// Reads `n` payload bytes and interprets them as an unsigned big-endian
/// integer.
fn read_be_uint<R: RmpRead>(rd: &mut R, n: usize) -> (r: Result<u64, ValueReadError<R::Error>>)
    requires
        1 <= n <= 8,
    ensures
        final(rd).infallible() == old(rd).infallible(),
        match r {
            Ok(x) => {
                &&& old(rd).remaining().len() >= n
                &&& x == be_uint(old(rd).remaining().take(n as int))
                &&& final(rd).remaining() == old(rd).remaining().skip(n as int)
            },
            Err(ValueReadError::InvalidDataRead(_)) => {
                &&& final(rd).remaining() == old(rd).remaining()
                &&& (old(rd).infallible() ==> old(rd).remaining().len() < n)
            },
            _ => false,
        },
        old(rd).infallible() && n <= old(rd).remaining().len() ==> r is Ok,
{
    match rd.read_exact(n) {
        Ok(buf) => {
            let mut acc: u64 = 0;
            let mut i: usize = 0;
            while i < n
                invariant
                    i <= n <= 8,
                    buf@.len() == n,
                    acc == be_uint(buf@.take(i as int)),
                decreases n - i,
            {
                proof {
                    lemma_be_uint_bound(buf@.take(i as int));
                    lemma_pow256_increases(i as nat, 7);
                    reveal_with_fuel(pow256, 9);
                }
                acc = acc * 256 + (buf[i] as u64);
                i = i + 1;
                proof {
                    assert(buf@.take(i as int).drop_last() =~= buf@.take(i - 1));
                }
            }
            proof {
                assert(buf@.take(n as int) =~= buf@);
            }
            Ok(acc)
        },
        Err(e) => Err(ValueReadError::InvalidDataRead(e)),
    }
}

/// Reinterprets an `n`-byte unsigned big-endian value as the signed
/// (two's-complement) value the same bytes encode.
fn be_signed_from_uint(u: u64, n: usize) -> (v: i64)
    requires
        n == 1 || n == 2 || n == 4 || n == 8,
        u < pow256(n as nat),
    ensures
        v as int == if 2 * u < pow256(n as nat) {
            u as int
        } else {
            u - pow256(n as nat)
        },
{
    proof {
        reveal_with_fuel(pow256, 9);
    }
    if n == 1 {
        if u < 0x80 {
            u as i64
        } else {
            u as i64 - 0x100
        }
    } else if n == 2 {
        if u < 0x8000 {
            u as i64
        } else {
            u as i64 - 0x10000
        }
    } else if n == 4 {
        if u < 0x80000000 {
            u as i64
        } else {
            u as i64 - 0x100000000
        }
    } else {
        if u < 0x8000000000000000 {
            u as i64
        } else {
            -((u64::MAX - u) as i64) - 1
        }
    }
}

/// Reads one byte and classifies it as a marker. Exactly one byte is consumed
/// whatever the classification; the classification itself is the total, pure
/// mapping [`marker_of`].
pub fn read_marker<R: RmpRead>(rd: &mut R) -> (r: Result<Marker, MarkerReadError<R::Error>>)
    ensures
        final(rd).infallible() == old(rd).infallible(),
        match r {
            Ok(m) => {
                &&& old(rd).remaining().len() >= 1
                &&& m == marker_of(old(rd).remaining()[0])
                &&& final(rd).remaining() == old(rd).remaining().skip(1)
            },
            Err(_) => {
                &&& final(rd).remaining() == old(rd).remaining()
                &&& (old(rd).infallible() ==> old(rd).remaining().len() == 0)
            },
        },
        old(rd).infallible() && old(rd).remaining().len() >= 1 ==> r is Ok,
{
    match rd.read_u8() {
        Ok(b) => Ok(Marker::from_u8(b)),
        Err(e) => Err(MarkerReadError(e)),
    }
}

/// Reads one marker and decodes it as the nil value, a single `0xc0` byte.
///
/// On any other marker, fails with a type mismatch naming that marker, having
/// consumed exactly the one marker byte.
pub fn read_nil<R: RmpRead>(rd: &mut R) -> (r: Result<(), ValueReadError<R::Error>>)
    ensures
        final(rd).infallible() == old(rd).infallible(),
        match r {
            Ok(_) => {
                &&& old(rd).remaining().len() >= 1
                &&& marker_of(old(rd).remaining()[0]) == Marker::Null
                &&& final(rd).remaining() == old(rd).remaining().skip(1)
            },
            Err(ValueReadError::TypeMismatch(m)) => {
                &&& old(rd).remaining().len() >= 1
                &&& m == marker_of(old(rd).remaining()[0])
                &&& m != Marker::Null
                &&& final(rd).remaining() == old(rd).remaining().skip(1)
            },
            Err(ValueReadError::InvalidMarkerRead(_)) => {
                &&& final(rd).remaining() == old(rd).remaining()
                &&& (old(rd).infallible() ==> old(rd).remaining().len() == 0)
            },
            Err(ValueReadError::InvalidDataRead(_)) => false,
        },
        old(rd).infallible() && old(rd).remaining().len() >= 1 ==> (r is Ok <==> marker_of(
            old(rd).remaining()[0],
        ) == Marker::Null),
{
    match read_marker(rd) {
        Ok(Marker::Null) => Ok(()),
        Ok(m) => Err(ValueReadError::TypeMismatch(m)),
        Err(MarkerReadError(e)) => Err(ValueReadError::InvalidMarkerRead(e)),
    }
}

/// Reads one marker and decodes it as a boolean, one of the two fixed bytes
/// `0xc2` (false) and `0xc3` (true).
pub fn read_bool<R: RmpRead>(rd: &mut R) -> (r: Result<bool, ValueReadError<R::Error>>)
    ensures
        final(rd).infallible() == old(rd).infallible(),
        match r {
            Ok(b) => {
                &&& old(rd).remaining().len() >= 1
                &&& marker_of(old(rd).remaining()[0]) == (if b {
                    Marker::True
                } else {
                    Marker::False
                })
                &&& final(rd).remaining() == old(rd).remaining().skip(1)
            },
            Err(ValueReadError::TypeMismatch(m)) => {
                &&& old(rd).remaining().len() >= 1
                &&& m == marker_of(old(rd).remaining()[0])
                &&& m != Marker::True
                &&& m != Marker::False
                &&& final(rd).remaining() == old(rd).remaining().skip(1)
            },
            Err(ValueReadError::InvalidMarkerRead(_)) => {
                &&& final(rd).remaining() == old(rd).remaining()
                &&& (old(rd).infallible() ==> old(rd).remaining().len() == 0)
            },
            Err(ValueReadError::InvalidDataRead(_)) => false,
        },
        old(rd).infallible() && old(rd).remaining().len() >= 1 ==> (r is Ok <==> (marker_of(
            old(rd).remaining()[0],
        ) == Marker::True || marker_of(old(rd).remaining()[0]) == Marker::False)),
{
    match read_marker(rd) {
        Ok(Marker::True) => Ok(true),
        Ok(Marker::False) => Ok(false),
        Ok(m) => Err(ValueReadError::TypeMismatch(m)),
        Err(MarkerReadError(e)) => Err(ValueReadError::InvalidMarkerRead(e)),
    }
}

/// Reads one marker and up to eight payload bytes and decodes them as an
/// integer narrowed into `T`.
///
/// Any integer-family marker is accepted — small fixed positive and negative
/// integers, and 8/16/32/64-bit signed and unsigned widths — as long as the
/// decoded magnitude fits `T`'s range: the decode goes through the widest
/// representation first and ends with a checked, saturation-free narrowing.
/// A magnitude that does not fit is a distinct out-of-range failure; its
/// payload bytes have then been consumed. A marker outside the family is a
/// type mismatch, with nothing consumed beyond the marker byte.
pub fn read_int<T: TryFromInt, R: RmpRead>(rd: &mut R) -> (r: Result<
    T,
    NumValueReadError<R::Error>,
>)
    ensures
        final(rd).infallible() == old(rd).infallible(),
        ({
            let s = old(rd).remaining();
            match r {
                Ok(x) => {
                    &&& has_int(s)
                    &&& T::in_range(decoded_int(s))
                    &&& x.as_int() == decoded_int(s)
                    &&& final(rd).remaining() == s.skip(int_frame_len(s))
                },
                Err(NumValueReadError::OutOfRange) => {
                    &&& has_int(s)
                    &&& !T::in_range(decoded_int(s))
                    &&& final(rd).remaining() == s.skip(int_frame_len(s))
                },
                Err(NumValueReadError::TypeMismatch(m)) => {
                    &&& s.len() >= 1
                    &&& m == marker_of(s[0])
                    &&& !is_int_marker(m)
                    &&& final(rd).remaining() == s.skip(1)
                },
                Err(NumValueReadError::InvalidMarkerRead(_)) => {
                    &&& final(rd).remaining() == s
                    &&& (old(rd).infallible() ==> s.len() == 0)
                },
                Err(NumValueReadError::InvalidDataRead(_)) => {
                    &&& s.len() >= 1
                    &&& is_int_marker(marker_of(s[0]))
                    &&& final(rd).remaining() == s.skip(1)
                    &&& (old(rd).infallible() ==> s.len() < int_frame_len(s))
                },
            }
        }),
        old(rd).infallible() ==> (r is Ok <==> has_int(old(rd).remaining()) && T::in_range(
            decoded_int(old(rd).remaining()),
        )),
{
    let ghost s = rd.remaining();
    let m = match read_marker(rd) {
        Ok(m) => m,
        Err(MarkerReadError(e)) => {
            return Err(NumValueReadError::InvalidMarkerRead(e));
        },
    };
    let val: Option<T> = match m {
        Marker::FixPos(v) => T::try_from_u64(v as u64),
        Marker::FixNeg(v) => T::try_from_i64(v as i64),
        Marker::U8 | Marker::U16 | Marker::U32 | Marker::U64 => {
            let w: usize = match m {
                Marker::U8 => 1,
                Marker::U16 => 2,
                Marker::U32 => 4,
                _ => 8,
            };
            match read_be_uint(rd, w) {
                Ok(u) => {
                    proof {
                        assert(s.skip(1).take(w as int) =~= s.subrange(1, 1 + w as int));
                        assert(s.skip(1).skip(w as int) =~= s.skip(1 + w as int));
                    }
                    T::try_from_u64(u)
                },
                Err(e) => {
                    return Err(num_err(e));
                },
            }
        },
        Marker::I8 | Marker::I16 | Marker::I32 | Marker::I64 => {
            let w: usize = match m {
                Marker::I8 => 1,
                Marker::I16 => 2,
                Marker::I32 => 4,
                _ => 8,
            };
            match read_be_uint(rd, w) {
                Ok(u) => {
                    proof {
                        assert(s.skip(1).take(w as int) =~= s.subrange(1, 1 + w as int));
                        assert(s.skip(1).skip(w as int) =~= s.skip(1 + w as int));
                        lemma_be_uint_bound(s.subrange(1, 1 + w as int));
                    }
                    let v = be_signed_from_uint(u, w);
                    T::try_from_i64(v)
                },
                Err(e) => {
                    return Err(num_err(e));
                },
            }
        },
        _ => {
            return Err(NumValueReadError::TypeMismatch(m));
        },
    };
    match val {
        Some(x) => Ok(x),
        None => Err(NumValueReadError::OutOfRange),
    }
}

/// Whether a marker opens an array: the three size classes of the array
/// family.
pub open spec fn is_array_len_marker(m: Marker) -> bool {
    m matches Marker::FixArray(_) || m == Marker::Array16 || m == Marker::Array32
}

/// Whether a marker opens a map: the three size classes of the map family.
pub open spec fn is_map_len_marker(m: Marker) -> bool {
    m matches Marker::FixMap(_) || m == Marker::Map16 || m == Marker::Map32
}

/// Whether a marker opens a byte array: the three size classes of the binary
/// family.
pub open spec fn is_bin_len_marker(m: Marker) -> bool {
    m == Marker::Bin8 || m == Marker::Bin16 || m == Marker::Bin32
}

/// Whether a marker opens a string: the four size classes of the string
/// family.
pub open spec fn is_str_len_marker(m: Marker) -> bool {
    m matches Marker::FixStr(_) || m == Marker::Str8 || m == Marker::Str16 || m == Marker::Str32
}

/// How many length-prefix bytes a container marker implies.
pub open spec fn len_width(m: Marker) -> nat {
    match m {
        Marker::Bin8 | Marker::Str8 => 1,
        Marker::Array16 | Marker::Map16 | Marker::Bin16 | Marker::Str16 => 2,
        Marker::Array32 | Marker::Map32 | Marker::Bin32 | Marker::Str32 => 4,
        _ => 0,
    }
}

/// The length a container marker with length-prefix bytes `p` claims.
pub open spec fn len_value(m: Marker, p: Seq<u8>) -> int {
    match m {
        Marker::FixArray(n) => n as int,
        Marker::FixMap(n) => n as int,
        Marker::FixStr(n) => n as int,
        _ => be_uint(p),
    }
}

/// How many bytes the length header at the head of `s` occupies, marker
/// included.
pub open spec fn len_frame_len(s: Seq<u8>) -> int {
    1 + len_width(marker_of(s[0])) as int
}

/// The length claimed by the container header at the head of `s`.
pub open spec fn decoded_len(s: Seq<u8>) -> int {
    len_value(marker_of(s[0]), s.subrange(1, len_frame_len(s)))
}

/// Reads the `w`-byte big-endian length prefix a container marker calls for.
fn read_len_payload<R: RmpRead>(rd: &mut R, w: usize) -> (r: Result<u32, ValueReadError<R::Error>>)
    requires
        w == 1 || w == 2 || w == 4,
    ensures
        final(rd).infallible() == old(rd).infallible(),
        match r {
            Ok(len) => {
                &&& old(rd).remaining().len() >= w
                &&& len == be_uint(old(rd).remaining().take(w as int))
                &&& final(rd).remaining() == old(rd).remaining().skip(w as int)
            },
            Err(ValueReadError::InvalidDataRead(_)) => {
                &&& final(rd).remaining() == old(rd).remaining()
                &&& (old(rd).infallible() ==> old(rd).remaining().len() < w)
            },
            _ => false,
        },
        old(rd).infallible() && w <= old(rd).remaining().len() ==> r is Ok,
{
    let ghost s = rd.remaining();
    match read_be_uint(rd, w) {
        Ok(u) => {
            proof {
                lemma_be_uint_bound(s.take(w as int));
                lemma_pow256_increases(w as nat, 4);
                reveal_with_fuel(pow256, 9);
            }
            Ok(u as u32)
        },
        Err(e) => Err(e),
    }
}

/// Reads one marker and up to four length bytes and decodes them as an array
/// size: the number of elements that follow.
///
/// The claimed size is not checked against anything: a 32-bit length field can
/// claim more elements than the source could ever supply, and holding the
/// claim against the data that actually follows is the caller's concern.
pub fn read_array_len<R: RmpRead>(rd: &mut R) -> (r: Result<u32, ValueReadError<R::Error>>)
    ensures
        final(rd).infallible() == old(rd).infallible(),
        ({
            let s = old(rd).remaining();
            match r {
                Ok(len) => {
                    &&& s.len() >= 1
                    &&& is_array_len_marker(marker_of(s[0]))
                    &&& s.len() >= len_frame_len(s)
                    &&& len == decoded_len(s)
                    &&& final(rd).remaining() == s.skip(len_frame_len(s))
                },
                Err(ValueReadError::TypeMismatch(m)) => {
                    &&& s.len() >= 1
                    &&& m == marker_of(s[0])
                    &&& !is_array_len_marker(m)
                    &&& final(rd).remaining() == s.skip(1)
                },
                Err(ValueReadError::InvalidMarkerRead(_)) => {
                    &&& final(rd).remaining() == s
                    &&& (old(rd).infallible() ==> s.len() == 0)
                },
                Err(ValueReadError::InvalidDataRead(_)) => {
                    &&& s.len() >= 1
                    &&& is_array_len_marker(marker_of(s[0]))
                    &&& final(rd).remaining() == s.skip(1)
                    &&& (old(rd).infallible() ==> s.len() < len_frame_len(s))
                },
            }
        }),
        old(rd).infallible() ==> (r is Ok <==> old(rd).remaining().len() >= 1
            && is_array_len_marker(marker_of(old(rd).remaining()[0])) && old(rd).remaining().len()
            >= len_frame_len(old(rd).remaining())),
{
    let ghost s = rd.remaining();
    let m = match read_marker(rd) {
        Ok(m) => m,
        Err(MarkerReadError(e)) => {
            return Err(ValueReadError::InvalidMarkerRead(e));
        },
    };
    let r = match m {
        Marker::FixArray(n) => Ok(n as u32),
        Marker::Array16 => read_len_payload(rd, 2),
        Marker::Array32 => read_len_payload(rd, 4),
        _ => Err(ValueReadError::TypeMismatch(m)),
    };
    proof {
        let w = len_width(marker_of(s[0])) as int;
        if s.len() >= 1 + w {
            assert(s.skip(1).take(w) =~= s.subrange(1, 1 + w));
            assert(s.skip(1).skip(w) =~= s.skip(1 + w));
        }
    }
    r
}

/// Reads up to four length bytes for an already-read marker and decodes them
/// as a map size: the number of key-value pairs that follow.
///
/// No marker is consumed here: the marker was read by the caller, and a
/// mismatch consumes nothing.
pub fn marker_to_len<R: RmpRead>(rd: &mut R, marker: Marker) -> (r: Result<
    u32,
    ValueReadError<R::Error>,
>)
    ensures
        final(rd).infallible() == old(rd).infallible(),
        ({
            let s = old(rd).remaining();
            let w = len_width(marker) as int;
            match r {
                Ok(len) => {
                    &&& is_map_len_marker(marker)
                    &&& s.len() >= w
                    &&& len == len_value(marker, s.take(w))
                    &&& final(rd).remaining() == s.skip(w)
                },
                Err(ValueReadError::TypeMismatch(m)) => {
                    &&& m == marker
                    &&& !is_map_len_marker(marker)
                    &&& final(rd).remaining() == s
                },
                Err(ValueReadError::InvalidMarkerRead(_)) => false,
                Err(ValueReadError::InvalidDataRead(_)) => {
                    &&& is_map_len_marker(marker)
                    &&& final(rd).remaining() == s
                    &&& (old(rd).infallible() ==> s.len() < w)
                },
            }
        }),
        old(rd).infallible() ==> (r is Ok <==> is_map_len_marker(marker) && len_width(marker)
            <= old(rd).remaining().len()),
{
    match marker {
        Marker::FixMap(n) => Ok(n as u32),
        Marker::Map16 => read_len_payload(rd, 2),
        Marker::Map32 => read_len_payload(rd, 4),
        _ => Err(ValueReadError::TypeMismatch(marker)),
    }
}

/// Reads one marker and up to four length bytes and decodes them as a map
/// size: the number of key-value pairs that follow.
///
/// As with arrays, the claimed size is reported as decoded, unchecked against
/// the data that actually follows.
pub fn read_map_len<R: RmpRead>(rd: &mut R) -> (r: Result<u32, ValueReadError<R::Error>>)
    ensures
        final(rd).infallible() == old(rd).infallible(),
        ({
            let s = old(rd).remaining();
            match r {
                Ok(len) => {
                    &&& s.len() >= 1
                    &&& is_map_len_marker(marker_of(s[0]))
                    &&& s.len() >= len_frame_len(s)
                    &&& len == decoded_len(s)
                    &&& final(rd).remaining() == s.skip(len_frame_len(s))
                },
                Err(ValueReadError::TypeMismatch(m)) => {
                    &&& s.len() >= 1
                    &&& m == marker_of(s[0])
                    &&& !is_map_len_marker(m)
                    &&& final(rd).remaining() == s.skip(1)
                },
                Err(ValueReadError::InvalidMarkerRead(_)) => {
                    &&& final(rd).remaining() == s
                    &&& (old(rd).infallible() ==> s.len() == 0)
                },
                Err(ValueReadError::InvalidDataRead(_)) => {
                    &&& s.len() >= 1
                    &&& is_map_len_marker(marker_of(s[0]))
                    &&& final(rd).remaining() == s.skip(1)
                    &&& (old(rd).infallible() ==> s.len() < len_frame_len(s))
                },
            }
        }),
        old(rd).infallible() ==> (r is Ok <==> old(rd).remaining().len() >= 1
            && is_map_len_marker(marker_of(old(rd).remaining()[0])) && old(rd).remaining().len()
            >= len_frame_len(old(rd).remaining())),
{
    let ghost s = rd.remaining();
    let m = match read_marker(rd) {
        Ok(m) => m,
        Err(MarkerReadError(e)) => {
            return Err(ValueReadError::InvalidMarkerRead(e));
        },
    };
    let r = marker_to_len(rd, m);
    proof {
        let w = len_width(marker_of(s[0])) as int;
        if s.len() >= 1 + w {
            assert(s.skip(1).take(w) =~= s.subrange(1, 1 + w));
            assert(s.skip(1).skip(w) =~= s.skip(1 + w));
        }
    }
    r
}

/// Reads one marker and up to four length bytes and decodes them as a binary
/// payload length: how many raw bytes follow.
pub fn read_bin_len<R: RmpRead>(rd: &mut R) -> (r: Result<u32, ValueReadError<R::Error>>)
    ensures
        final(rd).infallible() == old(rd).infallible(),
        ({
            let s = old(rd).remaining();
            match r {
                Ok(len) => {
                    &&& s.len() >= 1
                    &&& is_bin_len_marker(marker_of(s[0]))
                    &&& s.len() >= len_frame_len(s)
                    &&& len == decoded_len(s)
                    &&& final(rd).remaining() == s.skip(len_frame_len(s))
                },
                Err(ValueReadError::TypeMismatch(m)) => {
                    &&& s.len() >= 1
                    &&& m == marker_of(s[0])
                    &&& !is_bin_len_marker(m)
                    &&& final(rd).remaining() == s.skip(1)
                },
                Err(ValueReadError::InvalidMarkerRead(_)) => {
                    &&& final(rd).remaining() == s
                    &&& (old(rd).infallible() ==> s.len() == 0)
                },
                Err(ValueReadError::InvalidDataRead(_)) => {
                    &&& s.len() >= 1
                    &&& is_bin_len_marker(marker_of(s[0]))
                    &&& final(rd).remaining() == s.skip(1)
                    &&& (old(rd).infallible() ==> s.len() < len_frame_len(s))
                },
            }
        }),
        old(rd).infallible() ==> (r is Ok <==> old(rd).remaining().len() >= 1
            && is_bin_len_marker(marker_of(old(rd).remaining()[0])) && old(rd).remaining().len()
            >= len_frame_len(old(rd).remaining())),
{
    let ghost s = rd.remaining();
    let m = match read_marker(rd) {
        Ok(m) => m,
        Err(MarkerReadError(e)) => {
            return Err(ValueReadError::InvalidMarkerRead(e));
        },
    };
    let r = match m {
        Marker::Bin8 => read_len_payload(rd, 1),
        Marker::Bin16 => read_len_payload(rd, 2),
        Marker::Bin32 => read_len_payload(rd, 4),
        _ => Err(ValueReadError::TypeMismatch(m)),
    };
    proof {
        let w = len_width(marker_of(s[0])) as int;
        if s.len() >= 1 + w {
            assert(s.skip(1).take(w) =~= s.subrange(1, 1 + w));
            assert(s.skip(1).skip(w) =~= s.skip(1 + w));
        }
    }
    r
}

/// Reads one marker and up to four length bytes and decodes them as a string
/// byte length: how many string bytes follow.
pub fn read_str_len<R: RmpRead>(rd: &mut R) -> (r: Result<u32, ValueReadError<R::Error>>)
    ensures
        final(rd).infallible() == old(rd).infallible(),
        ({
            let s = old(rd).remaining();
            match r {
                Ok(len) => {
                    &&& s.len() >= 1
                    &&& is_str_len_marker(marker_of(s[0]))
                    &&& s.len() >= len_frame_len(s)
                    &&& len == decoded_len(s)
                    &&& final(rd).remaining() == s.skip(len_frame_len(s))
                },
                Err(ValueReadError::TypeMismatch(m)) => {
                    &&& s.len() >= 1
                    &&& m == marker_of(s[0])
                    &&& !is_str_len_marker(m)
                    &&& final(rd).remaining() == s.skip(1)
                },
                Err(ValueReadError::InvalidMarkerRead(_)) => {
                    &&& final(rd).remaining() == s
                    &&& (old(rd).infallible() ==> s.len() == 0)
                },
                Err(ValueReadError::InvalidDataRead(_)) => {
                    &&& s.len() >= 1
                    &&& is_str_len_marker(marker_of(s[0]))
                    &&& final(rd).remaining() == s.skip(1)
                    &&& (old(rd).infallible() ==> s.len() < len_frame_len(s))
                },
            }
        }),
        old(rd).infallible() ==> (r is Ok <==> old(rd).remaining().len() >= 1
            && is_str_len_marker(marker_of(old(rd).remaining()[0])) && old(rd).remaining().len()
            >= len_frame_len(old(rd).remaining())),
{
    let ghost s = rd.remaining();
    let m = match read_marker(rd) {
        Ok(m) => m,
        Err(MarkerReadError(e)) => {
            return Err(ValueReadError::InvalidMarkerRead(e));
        },
    };
    let r = match m {
        Marker::FixStr(n) => Ok(n as u32),
        Marker::Str8 => read_len_payload(rd, 1),
        Marker::Str16 => read_len_payload(rd, 2),
        Marker::Str32 => read_len_payload(rd, 4),
        _ => Err(ValueReadError::TypeMismatch(m)),
    };
    proof {
        let w = len_width(marker_of(s[0])) as int;
        if s.len() >= 1 + w {
            assert(s.skip(1).take(w) =~= s.subrange(1, 1 + w));
            assert(s.skip(1).skip(w) =~= s.skip(1 + w));
        }
    }
    r
}

/// The header of an extension value: the application-defined type tag and how
/// many data bytes follow the header.
#[derive(Clone, Copy, Debug, PartialEq, Eq, Structural)]
pub struct ExtMeta {
    /// The application-defined extension type, a signed byte.
    pub typ: i8,
    /// How many data bytes follow.
    pub size: u32,
}

/// Whether a marker opens an extension value: the five fixed sizes and the
/// three length-prefixed classes.
pub open spec fn is_ext_marker(m: Marker) -> bool {
    ||| m == Marker::FixExt1
    ||| m == Marker::FixExt2
    ||| m == Marker::FixExt4
    ||| m == Marker::FixExt8
    ||| m == Marker::FixExt16
    ||| m == Marker::Ext8
    ||| m == Marker::Ext16
    ||| m == Marker::Ext32
}

/// How many length-prefix bytes an extension marker implies.
pub open spec fn ext_size_width(m: Marker) -> nat {
    match m {
        Marker::Ext8 => 1,
        Marker::Ext16 => 2,
        Marker::Ext32 => 4,
        _ => 0,
    }
}

/// The data length an extension marker with length-prefix bytes `p` claims.
pub open spec fn ext_size_value(m: Marker, p: Seq<u8>) -> int {
    match m {
        Marker::FixExt1 => 1,
        Marker::FixExt2 => 2,
        Marker::FixExt4 => 4,
        Marker::FixExt8 => 8,
        Marker::FixExt16 => 16,
        _ => be_uint(p),
    }
}

/// How many bytes the extension header at the head of `s` occupies: the
/// marker, the length prefix, and the type byte that closes the header.
pub open spec fn ext_frame_len(s: Seq<u8>) -> int {
    2 + ext_size_width(marker_of(s[0])) as int
}

/// The data length claimed by the extension header at the head of `s`.
pub open spec fn decoded_ext_size(s: Seq<u8>) -> int {
    ext_size_value(marker_of(s[0]), s.subrange(1, 1 + ext_size_width(marker_of(s[0])) as int))
}

/// The type tag of the extension header at the head of `s`: its last header
/// byte read signed.
pub open spec fn decoded_ext_type(s: Seq<u8>) -> int {
    be_sint(s.subrange(ext_frame_len(s) - 1, ext_frame_len(s)))
}

/// Reads one marker, the length prefix it implies, and the closing type byte,
/// and decodes them as an extension header.
pub fn read_ext_meta<R: RmpRead>(rd: &mut R) -> (r: Result<ExtMeta, ValueReadError<R::Error>>)
    ensures
        final(rd).infallible() == old(rd).infallible(),
        ({
            let s = old(rd).remaining();
            match r {
                Ok(meta) => {
                    &&& s.len() >= 1
                    &&& is_ext_marker(marker_of(s[0]))
                    &&& s.len() >= ext_frame_len(s)
                    &&& meta.size == decoded_ext_size(s)
                    &&& meta.typ as int == decoded_ext_type(s)
                    &&& final(rd).remaining() == s.skip(ext_frame_len(s))
                },
                Err(ValueReadError::TypeMismatch(m)) => {
                    &&& s.len() >= 1
                    &&& m == marker_of(s[0])
                    &&& !is_ext_marker(m)
                    &&& final(rd).remaining() == s.skip(1)
                },
                Err(ValueReadError::InvalidMarkerRead(_)) => {
                    &&& final(rd).remaining() == s
                    &&& (old(rd).infallible() ==> s.len() == 0)
                },
                Err(ValueReadError::InvalidDataRead(_)) => {
                    &&& s.len() >= 1
                    &&& is_ext_marker(marker_of(s[0]))
                    &&& (final(rd).remaining() == s.skip(1) || final(rd).remaining() == s.skip(
                        ext_frame_len(s) - 1,
                    ))
                    &&& (old(rd).infallible() ==> s.len() < ext_frame_len(s))
                },
            }
        }),
        old(rd).infallible() ==> (r is Ok <==> old(rd).remaining().len() >= 1 && is_ext_marker(
            marker_of(old(rd).remaining()[0]),
        ) && old(rd).remaining().len() >= ext_frame_len(old(rd).remaining())),
{
    let ghost s = rd.remaining();
    let m = match read_marker(rd) {
        Ok(m) => m,
        Err(MarkerReadError(e)) => {
            return Err(ValueReadError::InvalidMarkerRead(e));
        },
    };
    let size: u32 = match m {
        Marker::FixExt1 => 1,
        Marker::FixExt2 => 2,
        Marker::FixExt4 => 4,
        Marker::FixExt8 => 8,
        Marker::FixExt16 => 16,
        Marker::Ext8 | Marker::Ext16 | Marker::Ext32 => {
            let w: usize = match m {
                Marker::Ext8 => 1,
                Marker::Ext16 => 2,
                _ => 4,
            };
            match read_len_payload(rd, w) {
                Ok(u) => {
                    proof {
                        assert(s.skip(1).take(w as int) =~= s.subrange(1, 1 + w as int));
                        assert(s.skip(1).skip(w as int) =~= s.skip(1 + w as int));
                    }
                    u
                },
                Err(e) => {
                    return Err(e);
                },
            }
        },
        _ => {
            return Err(ValueReadError::TypeMismatch(m));
        },
    };
    let ghost w = ext_size_width(marker_of(s[0])) as int;
    match rd.read_u8() {
        Ok(b) => {
            let t: i8 = if b < 0x80 {
                b as i8
            } else {
                (b as i16 - 256) as i8
            };
            proof {
                reveal_with_fuel(pow256, 2);
                reveal_with_fuel(be_uint, 3);
                assert(s.subrange(1 + w, 2 + w) =~= seq![s[1 + w]]);
                assert(seq![s[1 + w]].drop_last() =~= Seq::<u8>::empty());
                assert(be_uint(seq![s[1 + w]]) == s[1 + w]);
                assert(s.skip(1 + w).skip(1) =~= s.skip(2 + w));
            }
            Ok(ExtMeta { typ: t, size })
        },
        Err(e) => Err(ValueReadError::InvalidDataRead(e)),
    }
}

/// Whether `s` starts with a complete string: a string length header followed
/// by that many string bytes.
pub open spec fn has_str(s: Seq<u8>) -> bool {
    &&& s.len() >= 1
    &&& is_str_len_marker(marker_of(s[0]))
    &&& s.len() >= len_frame_len(s)
    &&& s.len() >= len_frame_len(s) + decoded_len(s)
}

/// The string bytes of the encoded string at the head of `s`.
pub open spec fn str_data(s: Seq<u8>) -> Seq<u8> {
    s.subrange(len_frame_len(s), len_frame_len(s) + decoded_len(s))
}

/// Reads one marker, the string length it implies, and that many string
/// bytes, copied into an owned buffer.
///
/// This is the materialization for streaming sources, which have no stable
/// backing storage to borrow from; a slice source can use [`read_str_ref`]
/// instead and borrow.
pub fn read_str_bytes<R: RmpRead>(rd: &mut R) -> (r: Result<Vec<u8>, ValueReadError<R::Error>>)
    ensures
        final(rd).infallible() == old(rd).infallible(),
        ({
            let s = old(rd).remaining();
            match r {
                Ok(v) => {
                    &&& has_str(s)
                    &&& v@ == str_data(s)
                    &&& final(rd).remaining() == s.skip(len_frame_len(s) + decoded_len(s))
                },
                Err(ValueReadError::TypeMismatch(m)) => {
                    &&& s.len() >= 1
                    &&& m == marker_of(s[0])
                    &&& !is_str_len_marker(m)
                    &&& final(rd).remaining() == s.skip(1)
                },
                Err(ValueReadError::InvalidMarkerRead(_)) => {
                    &&& final(rd).remaining() == s
                    &&& (old(rd).infallible() ==> s.len() == 0)
                },
                Err(ValueReadError::InvalidDataRead(_)) => {
                    &&& s.len() >= 1
                    &&& is_str_len_marker(marker_of(s[0]))
                    &&& (final(rd).remaining() == s.skip(1) || final(rd).remaining() == s.skip(
                        len_frame_len(s),
                    ))
                    &&& (old(rd).infallible() ==> !has_str(s))
                },
            }
        }),
        old(rd).infallible() ==> (r is Ok <==> has_str(old(rd).remaining())),
{
    let ghost s = rd.remaining();
    let len = match read_str_len(rd) {
        Ok(l) => l,
        Err(e) => {
            return Err(e);
        },
    };
    let ghost f = len_frame_len(s);
    match rd.read_exact(len as usize) {
        Ok(v) => {
            proof {
                assert(s.skip(f).take(len as int) =~= s.subrange(f, f + len));
                assert(s.skip(f).skip(len as int) =~= s.skip(f + len));
            }
            Ok(v)
        },
        Err(e) => Err(ValueReadError::InvalidDataRead(e)),
    }
}

/// Whether `s` starts with a complete byte array: a binary length header
/// followed by that many raw bytes.
pub open spec fn has_bin(s: Seq<u8>) -> bool {
    &&& s.len() >= 1
    &&& is_bin_len_marker(marker_of(s[0]))
    &&& s.len() >= len_frame_len(s)
    &&& s.len() >= len_frame_len(s) + decoded_len(s)
}

/// The raw bytes of the encoded byte array at the head of `s`.
pub open spec fn bin_data(s: Seq<u8>) -> Seq<u8> {
    s.subrange(len_frame_len(s), len_frame_len(s) + decoded_len(s))
}

/// Reads one marker, the binary length it implies, and that many raw bytes,
/// copied into an owned buffer.
///
/// This is the materialization for streaming sources; a slice source can use
/// [`read_bin_ref`] instead and borrow.
pub fn read_bin_bytes<R: RmpRead>(rd: &mut R) -> (r: Result<Vec<u8>, ValueReadError<R::Error>>)
    ensures
        final(rd).infallible() == old(rd).infallible(),
        ({
            let s = old(rd).remaining();
            match r {
                Ok(v) => {
                    &&& has_bin(s)
                    &&& v@ == bin_data(s)
                    &&& final(rd).remaining() == s.skip(len_frame_len(s) + decoded_len(s))
                },
                Err(ValueReadError::TypeMismatch(m)) => {
                    &&& s.len() >= 1
                    &&& m == marker_of(s[0])
                    &&& !is_bin_len_marker(m)
                    &&& final(rd).remaining() == s.skip(1)
                },
                Err(ValueReadError::InvalidMarkerRead(_)) => {
                    &&& final(rd).remaining() == s
                    &&& (old(rd).infallible() ==> s.len() == 0)
                },
                Err(ValueReadError::InvalidDataRead(_)) => {
                    &&& s.len() >= 1
                    &&& is_bin_len_marker(marker_of(s[0]))
                    &&& (final(rd).remaining() == s.skip(1) || final(rd).remaining() == s.skip(
                        len_frame_len(s),
                    ))
                    &&& (old(rd).infallible() ==> !has_bin(s))
                },
            }
        }),
        old(rd).infallible() ==> (r is Ok <==> has_bin(old(rd).remaining())),
{
    let ghost s = rd.remaining();
    let len = match read_bin_len(rd) {
        Ok(l) => l,
        Err(e) => {
            return Err(e);
        },
    };
    let ghost f = len_frame_len(s);
    match rd.read_exact(len as usize) {
        Ok(v) => {
            proof {
                assert(s.skip(f).take(len as int) =~= s.subrange(f, f + len));
                assert(s.skip(f).skip(len as int) =~= s.skip(f + len));
            }
            Ok(v)
        },
        Err(e) => Err(ValueReadError::InvalidDataRead(e)),
    }
}

/// Interprets a short byte slice as an unsigned big-endian integer.
fn slice_be_uint(p: &[u8]) -> (r: u64)
    requires
        p@.len() <= 8,
    ensures
        r == be_uint(p@),
{
    let n = p.len();
    let mut acc: u64 = 0;
    let mut i: usize = 0;
    while i < n
        invariant
            i <= n <= 8,
            n == p@.len(),
            acc == be_uint(p@.take(i as int)),
        decreases n - i,
    {
        proof {
            lemma_be_uint_bound(p@.take(i as int));
            lemma_pow256_increases(i as nat, 7);
            reveal_with_fuel(pow256, 9);
        }
        acc = acc * 256 + (*slice_index_get(p, i) as u64);
        i = i + 1;
        proof {
            assert(p@.take(i as int).drop_last() =~= p@.take(i - 1));
        }
    }
    proof {
        assert(p@.take(n as int) =~= p@);
    }
    acc
}

/// Reads one marker, the string length it implies, and that many string
/// bytes, returned as a borrow of the slice source's original buffer: nothing
/// is copied, and the view's storage lies inside that buffer.
pub fn read_str_ref<'a>(rd: &mut Bytes<'a>) -> (r: Result<&'a [u8], ValueReadError<BytesReadError>>)
    ensures
        final(rd).backing() == old(rd).backing(),
        ({
            let s = old(rd).remaining();
            match r {
                Ok(v) => {
                    &&& has_str(s)
                    &&& v@ == str_data(s)
                    &&& v@ == old(rd).backing().subrange(
                        old(rd).consumed() + len_frame_len(s),
                        old(rd).consumed() + len_frame_len(s) + decoded_len(s),
                    )
                    &&& final(rd).remaining() == s.skip(len_frame_len(s) + decoded_len(s))
                },
                Err(ValueReadError::TypeMismatch(m)) => {
                    &&& s.len() >= 1
                    &&& m == marker_of(s[0])
                    &&& !is_str_len_marker(m)
                    &&& final(rd).remaining() == s.skip(1)
                },
                Err(ValueReadError::InvalidMarkerRead(_)) => {
                    &&& final(rd).remaining() == s
                    &&& s.len() == 0
                },
                Err(ValueReadError::InvalidDataRead(_)) => {
                    &&& s.len() >= 1
                    &&& is_str_len_marker(marker_of(s[0]))
                    &&& !has_str(s)
                    &&& (final(rd).remaining() == s.skip(1) || final(rd).remaining() == s.skip(
                        len_frame_len(s),
                    ))
                },
            }
        }),
        r is Ok <==> has_str(old(rd).remaining()),
{
    let ghost s = rd.remaining();
    let mk = match rd.read_exact_ref(1) {
        Ok(p) => *slice_index_get(p, 0),
        Err(e) => {
            return Err(ValueReadError::InvalidMarkerRead(e));
        },
    };
    let m = Marker::from_u8(mk);
    proof {
        assert(s.take(1)[0] == s[0]);
    }
    let len: u32 = match m {
        Marker::FixStr(n) => n as u32,
        Marker::Str8 | Marker::Str16 | Marker::Str32 => {
            let w: usize = match m {
                Marker::Str8 => 1,
                Marker::Str16 => 2,
                _ => 4,
            };
            match rd.read_exact_ref(w) {
                Ok(p) => {
                    proof {
                        lemma_be_uint_bound(p@);
                        lemma_pow256_increases(w as nat, 4);
                        reveal_with_fuel(pow256, 9);
                        assert(s.skip(1).take(w as int) =~= s.subrange(1, 1 + w as int));
                        assert(s.skip(1).skip(w as int) =~= s.skip(1 + w as int));
                    }
                    slice_be_uint(p) as u32
                },
                Err(e) => {
                    return Err(ValueReadError::InvalidDataRead(e));
                },
            }
        },
        _ => {
            return Err(ValueReadError::TypeMismatch(m));
        },
    };
    let ghost f = len_frame_len(s);
    match rd.read_exact_ref(len as usize) {
        Ok(v) => {
            proof {
                assert(s.skip(f).take(len as int) =~= s.subrange(f, f + len));
                assert(s.skip(f).skip(len as int) =~= s.skip(f + len));
            }
            Ok(v)
        },
        Err(e) => Err(ValueReadError::InvalidDataRead(e)),
    }
}

/// Reads one marker, the binary length it implies, and that many raw bytes,
/// returned as a borrow of the slice source's original buffer: nothing is
/// copied, and the view's storage lies inside that buffer.
pub fn read_bin_ref<'a>(rd: &mut Bytes<'a>) -> (r: Result<&'a [u8], ValueReadError<BytesReadError>>)
    ensures
        final(rd).backing() == old(rd).backing(),
        ({
            let s = old(rd).remaining();
            match r {
                Ok(v) => {
                    &&& has_bin(s)
                    &&& v@ == bin_data(s)
                    &&& v@ == old(rd).backing().subrange(
                        old(rd).consumed() + len_frame_len(s),
                        old(rd).consumed() + len_frame_len(s) + decoded_len(s),
                    )
                    &&& final(rd).remaining() == s.skip(len_frame_len(s) + decoded_len(s))
                },
                Err(ValueReadError::TypeMismatch(m)) => {
                    &&& s.len() >= 1
                    &&& m == marker_of(s[0])
                    &&& !is_bin_len_marker(m)
                    &&& final(rd).remaining() == s.skip(1)
                },
                Err(ValueReadError::InvalidMarkerRead(_)) => {
                    &&& final(rd).remaining() == s
                    &&& s.len() == 0
                },
                Err(ValueReadError::InvalidDataRead(_)) => {
                    &&& s.len() >= 1
                    &&& is_bin_len_marker(marker_of(s[0]))
                    &&& !has_bin(s)
                    &&& (final(rd).remaining() == s.skip(1) || final(rd).remaining() == s.skip(
                        len_frame_len(s),
                    ))
                },
            }
        }),
        r is Ok <==> has_bin(old(rd).remaining()),
{
    let ghost s = rd.remaining();
    let mk = match rd.read_exact_ref(1) {
        Ok(p) => *slice_index_get(p, 0),
        Err(e) => {
            return Err(ValueReadError::InvalidMarkerRead(e));
        },
    };
    let m = Marker::from_u8(mk);
    proof {
        assert(s.take(1)[0] == s[0]);
    }
    let len: u32 = match m {
        Marker::Bin8 | Marker::Bin16 | Marker::Bin32 => {
            let w: usize = match m {
                Marker::Bin8 => 1,
                Marker::Bin16 => 2,
                _ => 4,
            };
            match rd.read_exact_ref(w) {
                Ok(p) => {
                    proof {
                        lemma_be_uint_bound(p@);
                        lemma_pow256_increases(w as nat, 4);
                        reveal_with_fuel(pow256, 9);
                        assert(s.skip(1).take(w as int) =~= s.subrange(1, 1 + w as int));
                        assert(s.skip(1).skip(w as int) =~= s.skip(1 + w as int));
                    }
                    slice_be_uint(p) as u32
                },
                Err(e) => {
                    return Err(ValueReadError::InvalidDataRead(e));
                },
            }
        },
        _ => {
            return Err(ValueReadError::TypeMismatch(m));
        },
    };
    let ghost f = len_frame_len(s);
    match rd.read_exact_ref(len as usize) {
        Ok(v) => {
            proof {
                assert(s.skip(f).take(len as int) =~= s.subrange(f, f + len));
                assert(s.skip(f).skip(len as int) =~= s.skip(f + len));
            }
            Ok(v)
        },
        Err(e) => Err(ValueReadError::InvalidDataRead(e)),
    }
}

/// The canonical payload encoding value `v` under integer marker `m`: big-
/// endian, two's-complement for the signed widths, empty for the fixed
/// markers, whose value lives in the marker byte itself.
pub open spec fn int_payload(m: Marker, v: int) -> Seq<u8> {
    match m {
        Marker::U8 | Marker::U16 | Marker::U32 | Marker::U64 => be_bytes(v, int_width(m)),
        Marker::I8 | Marker::I16 | Marker::I32 | Marker::I64 => sbe_bytes(v, int_width(m)),
        _ => Seq::empty(),
    }
}

/// Whether integer marker `m` can carry value `v`.
pub open spec fn int_marker_fits(m: Marker, v: int) -> bool {
    match m {
        Marker::FixPos(x) => v == x,
        Marker::FixNeg(x) => v == x,
        Marker::U8 | Marker::U16 | Marker::U32 | Marker::U64 => 0 <= v < pow256(int_width(m)),
        Marker::I8 | Marker::I16 | Marker::I32 | Marker::I64 => -pow256(int_width(m)) <= 2 * v
            < pow256(int_width(m)),
        _ => false,
    }
}

/// Law: payload decoding inverts payload encoding. For every integer marker
/// and every value it can carry, the canonical payload reads back as that
/// value.
pub proof fn lemma_int_round_trip(m: Marker, v: int)
    requires
        is_int_marker(m),
        int_marker_fits(m, v),
    ensures
        int_payload(m, v).len() == int_width(m),
        int_value(m, int_payload(m, v)) == v,
{
    match m {
        Marker::U8 | Marker::U16 | Marker::U32 | Marker::U64 => {
            lemma_be_uint_of_be_bytes(v, int_width(m));
        },
        Marker::I8 | Marker::I16 | Marker::I32 | Marker::I64 => {
            lemma_be_sint_of_sbe_bytes(v, int_width(m));
        },
        _ => {
        },
    }
}

/// Law: decoding inverts encoding, whole frames included. For every
/// well-formed integer marker and every value it can carry, the frame made of
/// the marker byte followed by the canonical payload holds a complete encoded
/// integer that decodes back to that value — so the generic integer reader,
/// whose contract speaks of [`decoded_int`], returns it for every target type
/// whose range admits it.
pub proof fn lemma_int_frame_round_trip(m: Marker, v: int)
    requires
        is_int_marker(m),
        marker_wf(m),
        int_marker_fits(m, v),
    ensures
        ({
            let frame = seq![marker_byte(m)] + int_payload(m, v);
            &&& has_int(frame)
            &&& decoded_int(frame) == v
        }),
{
    let frame = seq![marker_byte(m)] + int_payload(m, v);
    lemma_marker_byte_round_trip(m);
    lemma_int_round_trip(m, v);
    assert(frame[0] == marker_byte(m));
    assert(frame.subrange(1, 1 + int_width(m) as int) =~= int_payload(m, v));
}

} // verus!
