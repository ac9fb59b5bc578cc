//! The marker model: the classification of every possible leading byte of an
//! encoded MessagePack value.

use vstd::prelude::*;

verus! {

/// A MessagePack format marker.
///
/// The first byte of every encoded value names the format of what follows.
/// Every byte `0x00..=0xff` classifies as exactly one variant; `0xc1`, the one
/// byte the format leaves unused, is kept as [`Marker::Reserved`] so that the
/// classification stays total.
#[derive(Clone, Copy, Debug, PartialEq, Eq, Structural)]
pub enum Marker {
    /// `0x00..=0x7f`: a small positive integer stored in the marker byte itself.
    FixPos(u8),
    /// `0xe0..=0xff`: a small negative integer stored in the marker byte itself.
    FixNeg(i8),
    /// `0xc0`: the nil value.
    Null,
    /// `0xc1`: never written by a conforming encoder.
    Reserved,
    /// `0xc2`: the boolean `false`.
    False,
    /// `0xc3`: the boolean `true`.
    True,
    /// `0xcc`: an unsigned integer in one payload byte.
    U8,
    /// `0xcd`: an unsigned integer in two big-endian payload bytes.
    U16,
    /// `0xce`: an unsigned integer in four big-endian payload bytes.
    U32,
    /// `0xcf`: an unsigned integer in eight big-endian payload bytes.
    U64,
    /// `0xd0`: a signed integer in one payload byte.
    I8,
    /// `0xd1`: a signed integer in two big-endian payload bytes.
    I16,
    /// `0xd2`: a signed integer in four big-endian payload bytes.
    I32,
    /// `0xd3`: a signed integer in eight big-endian payload bytes.
    I64,
    /// `0xca`: a 32-bit float in four payload bytes.
    F32,
    /// `0xcb`: a 64-bit float in eight payload bytes.
    F64,
    /// `0xa0..=0xbf`: a string whose byte length is stored in the marker.
    FixStr(u8),
    /// `0xd9`: a string with a one-byte length prefix.
    Str8,
    /// `0xda`: a string with a two-byte big-endian length prefix.
    Str16,
    /// `0xdb`: a string with a four-byte big-endian length prefix.
    Str32,
    /// `0xc4`: a byte array with a one-byte length prefix.
    Bin8,
    /// `0xc5`: a byte array with a two-byte big-endian length prefix.
    Bin16,
    /// `0xc6`: a byte array with a four-byte big-endian length prefix.
    Bin32,
    /// `0x90..=0x9f`: an array whose element count is stored in the marker.
    FixArray(u8),
    /// `0xdc`: an array with a two-byte big-endian element count.
    Array16,
    /// `0xdd`: an array with a four-byte big-endian element count.
    Array32,
    /// `0x80..=0x8f`: a map whose pair count is stored in the marker.
    FixMap(u8),
    /// `0xde`: a map with a two-byte big-endian pair count.
    Map16,
    /// `0xdf`: a map with a four-byte big-endian pair count.
    Map32,
    /// `0xd4`: an extension value with one data byte.
    FixExt1,
    /// `0xd5`: an extension value with two data bytes.
    FixExt2,
    /// `0xd6`: an extension value with four data bytes.
    FixExt4,
    /// `0xd7`: an extension value with eight data bytes.
    FixExt8,
    /// `0xd8`: an extension value with sixteen data bytes.
    FixExt16,
    /// `0xc7`: an extension value with a one-byte length prefix.
    Ext8,
    /// `0xc8`: an extension value with a two-byte big-endian length prefix.
    Ext16,
    /// `0xc9`: an extension value with a four-byte big-endian length prefix.
    Ext32,
}

/// The total classification of a leading byte: every byte maps to exactly one
/// marker, with no side effect. This spec function is the single reference the
/// decoding contracts speak of.
pub open spec fn marker_of(b: u8) -> Marker {
    if b <= 0x7f {
        Marker::FixPos(b)
    } else if b <= 0x8f {
        Marker::FixMap((b - 0x80) as u8)
    } else if b <= 0x9f {
        Marker::FixArray((b - 0x90) as u8)
    } else if b <= 0xbf {
        Marker::FixStr((b - 0xa0) as u8)
    } else if b == 0xc0 {
        Marker::Null
    } else if b == 0xc1 {
        Marker::Reserved
    } else if b == 0xc2 {
        Marker::False
    } else if b == 0xc3 {
        Marker::True
    } else if b == 0xc4 {
        Marker::Bin8
    } else if b == 0xc5 {
        Marker::Bin16
    } else if b == 0xc6 {
        Marker::Bin32
    } else if b == 0xc7 {
        Marker::Ext8
    } else if b == 0xc8 {
        Marker::Ext16
    } else if b == 0xc9 {
        Marker::Ext32
    } else if b == 0xca {
        Marker::F32
    } else if b == 0xcb {
        Marker::F64
    } else if b == 0xcc {
        Marker::U8
    } else if b == 0xcd {
        Marker::U16
    } else if b == 0xce {
        Marker::U32
    } else if b == 0xcf {
        Marker::U64
    } else if b == 0xd0 {
        Marker::I8
    } else if b == 0xd1 {
        Marker::I16
    } else if b == 0xd2 {
        Marker::I32
    } else if b == 0xd3 {
        Marker::I64
    } else if b == 0xd4 {
        Marker::FixExt1
    } else if b == 0xd5 {
        Marker::FixExt2
    } else if b == 0xd6 {
        Marker::FixExt4
    } else if b == 0xd7 {
        Marker::FixExt8
    } else if b == 0xd8 {
        Marker::FixExt16
    } else if b == 0xd9 {
        Marker::Str8
    } else if b == 0xda {
        Marker::Str16
    } else if b == 0xdb {
        Marker::Str32
    } else if b == 0xdc {
        Marker::Array16
    } else if b == 0xdd {
        Marker::Array32
    } else if b == 0xde {
        Marker::Map16
    } else if b == 0xdf {
        Marker::Map32
    } else {
        Marker::FixNeg((b - 256) as i8)
    }
}

/// Whether a marker's own payload lies within the range its byte encoding can
/// carry: the fixed families store a small value inside the marker byte
/// itself.
pub open spec fn marker_wf(m: Marker) -> bool {
    match m {
        Marker::FixPos(v) => v <= 0x7f,
        Marker::FixNeg(v) => -32 <= v <= -1,
        Marker::FixMap(v) => v <= 0x0f,
        Marker::FixArray(v) => v <= 0x0f,
        Marker::FixStr(v) => v <= 0x1f,
        _ => true,
    }
}

/// The byte that encodes a well-formed marker.
pub open spec fn marker_byte(m: Marker) -> u8 {
    match m {
        Marker::FixPos(v) => v,
        Marker::FixNeg(v) => (v + 256) as u8,
        Marker::FixMap(v) => (0x80 + v) as u8,
        Marker::FixArray(v) => (0x90 + v) as u8,
        Marker::FixStr(v) => (0xa0 + v) as u8,
        Marker::Null => 0xc0,
        Marker::Reserved => 0xc1,
        Marker::False => 0xc2,
        Marker::True => 0xc3,
        Marker::Bin8 => 0xc4,
        Marker::Bin16 => 0xc5,
        Marker::Bin32 => 0xc6,
        Marker::Ext8 => 0xc7,
        Marker::Ext16 => 0xc8,
        Marker::Ext32 => 0xc9,
        Marker::F32 => 0xca,
        Marker::F64 => 0xcb,
        Marker::U8 => 0xcc,
        Marker::U16 => 0xcd,
        Marker::U32 => 0xce,
        Marker::U64 => 0xcf,
        Marker::I8 => 0xd0,
        Marker::I16 => 0xd1,
        Marker::I32 => 0xd2,
        Marker::I64 => 0xd3,
        Marker::FixExt1 => 0xd4,
        Marker::FixExt2 => 0xd5,
        Marker::FixExt4 => 0xd6,
        Marker::FixExt8 => 0xd7,
        Marker::FixExt16 => 0xd8,
        Marker::Str8 => 0xd9,
        Marker::Str16 => 0xda,
        Marker::Str32 => 0xdb,
        Marker::Array16 => 0xdc,
        Marker::Array32 => 0xdd,
        Marker::Map16 => 0xde,
        Marker::Map32 => 0xdf,
    }
}

/// Law: classification inverts encoding. Every well-formed marker, written
/// out as its byte, classifies back to itself.
pub proof fn lemma_marker_byte_round_trip(m: Marker)
    requires
        marker_wf(m),
    ensures
        marker_of(marker_byte(m)) == m,
{
}

/// Law: encoding inverts classification. Every byte classifies as a
/// well-formed marker whose byte is itself — together with
/// [`lemma_marker_byte_round_trip`], classification is a bijection between
/// the 256 bytes and the well-formed markers.
pub proof fn lemma_marker_of_round_trip(b: u8)
    ensures
        marker_wf(marker_of(b)),
        marker_byte(marker_of(b)) == b,
{
}

impl Marker {
    /// Classifies one byte as its marker, exactly as [`marker_of`] does.
    pub fn from_u8(b: u8) -> (m: Marker)
        ensures
            m == marker_of(b),
    {
        if b <= 0x7f {
            Marker::FixPos(b)
        } else if b <= 0x8f {
            Marker::FixMap(b - 0x80)
        } else if b <= 0x9f {
            Marker::FixArray(b - 0x90)
        } else if b <= 0xbf {
            Marker::FixStr(b - 0xa0)
        } else if b == 0xc0 {
            Marker::Null
        } else if b == 0xc1 {
            Marker::Reserved
        } else if b == 0xc2 {
            Marker::False
        } else if b == 0xc3 {
            Marker::True
        } else if b == 0xc4 {
            Marker::Bin8
        } else if b == 0xc5 {
            Marker::Bin16
        } else if b == 0xc6 {
            Marker::Bin32
        } else if b == 0xc7 {
            Marker::Ext8
        } else if b == 0xc8 {
            Marker::Ext16
        } else if b == 0xc9 {
            Marker::Ext32
        } else if b == 0xca {
            Marker::F32
        } else if b == 0xcb {
            Marker::F64
        } else if b == 0xcc {
            Marker::U8
        } else if b == 0xcd {
            Marker::U16
        } else if b == 0xce {
            Marker::U32
        } else if b == 0xcf {
            Marker::U64
        } else if b == 0xd0 {
            Marker::I8
        } else if b == 0xd1 {
            Marker::I16
        } else if b == 0xd2 {
            Marker::I32
        } else if b == 0xd3 {
            Marker::I64
        } else if b == 0xd4 {
            Marker::FixExt1
        } else if b == 0xd5 {
            Marker::FixExt2
        } else if b == 0xd6 {
            Marker::FixExt4
        } else if b == 0xd7 {
            Marker::FixExt8
        } else if b == 0xd8 {
            Marker::FixExt16
        } else if b == 0xd9 {
            Marker::Str8
        } else if b == 0xda {
            Marker::Str16
        } else if b == 0xdb {
            Marker::Str32
        } else if b == 0xdc {
            Marker::Array16
        } else if b == 0xdd {
            Marker::Array32
        } else if b == 0xde {
            Marker::Map16
        } else if b == 0xdf {
            Marker::Map32
        } else {
            Marker::FixNeg((b as i16 - 256) as i8)
        }
    }
}

} // verus!
