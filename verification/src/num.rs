//! The numeric model: big-endian interpretation of payload byte runs, their
//! canonical encodings, and the checked narrowing conversion that generic
//! integer decoding ends with.

use vstd::prelude::*;

verus! {

/// The unsigned value of a byte run read big-endian: the first byte is the
/// most significant.
pub open spec fn be_uint(s: Seq<u8>) -> int
    decreases s.len(),
{
    if s.len() == 0 {
        0
    } else {
        be_uint(s.drop_last()) * 256 + s.last()
    }
}

/// 256 to the n-th power: how many distinct values an n-byte run can hold.
pub open spec fn pow256(n: nat) -> int
    decreases n,
{
    if n == 0 {
        1
    } else {
        256 * pow256((n - 1) as nat)
    }
}

/// The signed value of a byte run read big-endian two's-complement.
pub open spec fn be_sint(s: Seq<u8>) -> int {
    if 2 * be_uint(s) < pow256(s.len()) {
        be_uint(s)
    } else {
        be_uint(s) - pow256(s.len())
    }
}

pub proof fn lemma_pow256_pos(n: nat)
    ensures
        pow256(n) >= 1,
    decreases n,
{
    if n > 0 {
        lemma_pow256_pos((n - 1) as nat);
    }
}

pub proof fn lemma_pow256_increases(m: nat, n: nat)
    requires
        m <= n,
    ensures
        pow256(m) <= pow256(n),
    decreases n,
{
    if m < n {
        lemma_pow256_increases(m, (n - 1) as nat);
        lemma_pow256_pos((n - 1) as nat);
    }
}

/// A byte run's unsigned value fits in as many bytes as the run holds.
pub proof fn lemma_be_uint_bound(s: Seq<u8>)
    ensures
        0 <= be_uint(s) < pow256(s.len()),
    decreases s.len(),
{
    if s.len() > 0 {
        lemma_be_uint_bound(s.drop_last());
    }
}

/// The canonical n-byte big-endian encoding of an unsigned value.
pub open spec fn be_bytes(v: int, n: nat) -> Seq<u8>
    decreases n,
{
    if n == 0 {
        Seq::empty()
    } else {
        be_bytes(v / 256, (n - 1) as nat).push((v % 256) as u8)
    }
}

/// The canonical n-byte big-endian two's-complement encoding of a signed
/// value.
pub open spec fn sbe_bytes(v: int, n: nat) -> Seq<u8> {
    if v < 0 {
        be_bytes(v + pow256(n), n)
    } else {
        be_bytes(v, n)
    }
}

/// Round trip for unsigned byte runs: reading back the canonical encoding of
/// any value that fits in n bytes yields that value.
pub proof fn lemma_be_uint_of_be_bytes(v: int, n: nat)
    requires
        0 <= v < pow256(n),
    ensures
        be_bytes(v, n).len() == n,
        be_uint(be_bytes(v, n)) == v,
    decreases n,
{
    if n > 0 {
        assert(v == 256 * (v / 256) + v % 256) by (nonlinear_arith);
        assert(0 <= v % 256 < 256) by (nonlinear_arith);
        assert(v / 256 < pow256((n - 1) as nat)) by (nonlinear_arith)
            requires
                0 <= v < 256 * pow256((n - 1) as nat),
        ;
        lemma_be_uint_of_be_bytes(v / 256, (n - 1) as nat);
        assert(be_bytes(v, n).drop_last() =~= be_bytes(v / 256, (n - 1) as nat));
        assert(be_bytes(v, n).last() == (v % 256) as u8);
    }
}

/// Round trip for signed byte runs: reading back the canonical
/// two's-complement encoding of any value that fits in n bytes yields that
/// value.
pub proof fn lemma_be_sint_of_sbe_bytes(v: int, n: nat)
    requires
        -pow256(n) <= 2 * v < pow256(n),
    ensures
        sbe_bytes(v, n).len() == n,
        be_sint(sbe_bytes(v, n)) == v,
{
    lemma_pow256_pos(n);
    if v < 0 {
        lemma_be_uint_of_be_bytes(v + pow256(n), n);
    } else {
        lemma_be_uint_of_be_bytes(v, n);
    }
}

/// A numeric type that a decoded integer can be narrowed into with a checked,
/// saturation-free conversion: the conversion succeeds exactly when the
/// mathematical value fits, and never alters it.
pub trait TryFromInt: Sized + Copy {
    /// Whether the mathematical integer `v` is representable in `Self`.
    spec fn in_range(v: int) -> bool;

    /// The mathematical value of `self`.
    spec fn as_int(self) -> int;

    /// Checked conversion from an unsigned 64-bit value.
    fn try_from_u64(v: u64) -> (r: Option<Self>)
        ensures
            r is Some <==> Self::in_range(v as int),
            r matches Some(x) ==> x.as_int() == v as int,
    ;

    /// Checked conversion from a signed 64-bit value.
    fn try_from_i64(v: i64) -> (r: Option<Self>)
        ensures
            r is Some <==> Self::in_range(v as int),
            r matches Some(x) ==> x.as_int() == v as int,
    ;
}

impl TryFromInt for u8 {
    open spec fn in_range(v: int) -> bool {
        0 <= v <= u8::MAX
    }

    open spec fn as_int(self) -> int {
        self as int
    }

    fn try_from_u64(v: u64) -> (r: Option<u8>) {
        if v <= u8::MAX as u64 {
            Some(v as u8)
        } else {
            None
        }
    }

    fn try_from_i64(v: i64) -> (r: Option<u8>) {
        if 0 <= v && v <= u8::MAX as i64 {
            Some(v as u8)
        } else {
            None
        }
    }
}

impl TryFromInt for u16 {
    open spec fn in_range(v: int) -> bool {
        0 <= v <= u16::MAX
    }

    open spec fn as_int(self) -> int {
        self as int
    }

    fn try_from_u64(v: u64) -> (r: Option<u16>) {
        if v <= u16::MAX as u64 {
            Some(v as u16)
        } else {
            None
        }
    }

    fn try_from_i64(v: i64) -> (r: Option<u16>) {
        if 0 <= v && v <= u16::MAX as i64 {
            Some(v as u16)
        } else {
            None
        }
    }
}

impl TryFromInt for u32 {
    open spec fn in_range(v: int) -> bool {
        0 <= v <= u32::MAX
    }

    open spec fn as_int(self) -> int {
        self as int
    }

    fn try_from_u64(v: u64) -> (r: Option<u32>) {
        if v <= u32::MAX as u64 {
            Some(v as u32)
        } else {
            None
        }
    }

    fn try_from_i64(v: i64) -> (r: Option<u32>) {
        if 0 <= v && v <= u32::MAX as i64 {
            Some(v as u32)
        } else {
            None
        }
    }
}

impl TryFromInt for u64 {
    open spec fn in_range(v: int) -> bool {
        0 <= v <= u64::MAX
    }

    open spec fn as_int(self) -> int {
        self as int
    }

    fn try_from_u64(v: u64) -> (r: Option<u64>) {
        Some(v)
    }

    fn try_from_i64(v: i64) -> (r: Option<u64>) {
        if v >= 0 {
            Some(v as u64)
        } else {
            None
        }
    }
}

impl TryFromInt for usize {
    open spec fn in_range(v: int) -> bool {
        0 <= v <= usize::MAX
    }

    open spec fn as_int(self) -> int {
        self as int
    }

    fn try_from_u64(v: u64) -> (r: Option<usize>) {
        if v <= usize::MAX as u64 {
            Some(v as usize)
        } else {
            None
        }
    }

    fn try_from_i64(v: i64) -> (r: Option<usize>) {
        if 0 <= v && v as u64 <= usize::MAX as u64 {
            Some(v as usize)
        } else {
            None
        }
    }
}

impl TryFromInt for i8 {
    open spec fn in_range(v: int) -> bool {
        i8::MIN <= v <= i8::MAX
    }

    open spec fn as_int(self) -> int {
        self as int
    }

    fn try_from_u64(v: u64) -> (r: Option<i8>) {
        if v <= i8::MAX as u64 {
            Some(v as i8)
        } else {
            None
        }
    }

    fn try_from_i64(v: i64) -> (r: Option<i8>) {
        if i8::MIN as i64 <= v && v <= i8::MAX as i64 {
            Some(v as i8)
        } else {
            None
        }
    }
}

impl TryFromInt for i16 {
    open spec fn in_range(v: int) -> bool {
        i16::MIN <= v <= i16::MAX
    }

    open spec fn as_int(self) -> int {
        self as int
    }

    fn try_from_u64(v: u64) -> (r: Option<i16>) {
        if v <= i16::MAX as u64 {
            Some(v as i16)
        } else {
            None
        }
    }

    fn try_from_i64(v: i64) -> (r: Option<i16>) {
        if i16::MIN as i64 <= v && v <= i16::MAX as i64 {
            Some(v as i16)
        } else {
            None
        }
    }
}

impl TryFromInt for i32 {
    open spec fn in_range(v: int) -> bool {
        i32::MIN <= v <= i32::MAX
    }

    open spec fn as_int(self) -> int {
        self as int
    }

    fn try_from_u64(v: u64) -> (r: Option<i32>) {
        if v <= i32::MAX as u64 {
            Some(v as i32)
        } else {
            None
        }
    }

    fn try_from_i64(v: i64) -> (r: Option<i32>) {
        if i32::MIN as i64 <= v && v <= i32::MAX as i64 {
            Some(v as i32)
        } else {
            None
        }
    }
}

impl TryFromInt for i64 {
    open spec fn in_range(v: int) -> bool {
        i64::MIN <= v <= i64::MAX
    }

    open spec fn as_int(self) -> int {
        self as int
    }

    fn try_from_u64(v: u64) -> (r: Option<i64>) {
        if v <= i64::MAX as u64 {
            Some(v as i64)
        } else {
            None
        }
    }

    fn try_from_i64(v: i64) -> (r: Option<i64>) {
        Some(v)
    }
}

impl TryFromInt for isize {
    open spec fn in_range(v: int) -> bool {
        isize::MIN <= v <= isize::MAX
    }

    open spec fn as_int(self) -> int {
        self as int
    }

    fn try_from_u64(v: u64) -> (r: Option<isize>) {
        if v <= isize::MAX as u64 {
            Some(v as isize)
        } else {
            None
        }
    }

    fn try_from_i64(v: i64) -> (r: Option<isize>) {
        if isize::MIN as i64 <= v && v <= isize::MAX as i64 {
            Some(v as isize)
        } else {
            None
        }
    }
}

} // verus!
