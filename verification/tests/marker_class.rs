//! Marker classification: total over every byte, pure, and deterministic.

use rmp::bytes::Bytes;
use rmp::decode::read_marker;
use rmp::Marker;

#[test]
fn classification_is_total_and_matches_the_format() {
    for b in 0u16..=255u16 {
        let b = b as u8;
        let m = Marker::from_u8(b);
        let expected = match b {
            0x00..=0x7f => Marker::FixPos(b),
            0x80..=0x8f => Marker::FixMap(b - 0x80),
            0x90..=0x9f => Marker::FixArray(b - 0x90),
            0xa0..=0xbf => Marker::FixStr(b - 0xa0),
            0xc0 => Marker::Null,
            0xc1 => Marker::Reserved,
            0xc2 => Marker::False,
            0xc3 => Marker::True,
            0xc4 => Marker::Bin8,
            0xc5 => Marker::Bin16,
            0xc6 => Marker::Bin32,
            0xc7 => Marker::Ext8,
            0xc8 => Marker::Ext16,
            0xc9 => Marker::Ext32,
            0xca => Marker::F32,
            0xcb => Marker::F64,
            0xcc => Marker::U8,
            0xcd => Marker::U16,
            0xce => Marker::U32,
            0xcf => Marker::U64,
            0xd0 => Marker::I8,
            0xd1 => Marker::I16,
            0xd2 => Marker::I32,
            0xd3 => Marker::I64,
            0xd4 => Marker::FixExt1,
            0xd5 => Marker::FixExt2,
            0xd6 => Marker::FixExt4,
            0xd7 => Marker::FixExt8,
            0xd8 => Marker::FixExt16,
            0xd9 => Marker::Str8,
            0xda => Marker::Str16,
            0xdb => Marker::Str32,
            0xdc => Marker::Array16,
            0xdd => Marker::Array32,
            0xde => Marker::Map16,
            0xdf => Marker::Map32,
            0xe0..=0xff => Marker::FixNeg(b as i8),
        };
        assert_eq!(m, expected);
    }
}

#[test]
fn classification_is_deterministic() {
    for b in 0u16..=255u16 {
        let b = b as u8;
        assert_eq!(Marker::from_u8(b), Marker::from_u8(b));
    }
}

#[test]
fn read_marker_consumes_exactly_one_byte() {
    for b in 0u16..=255u16 {
        let buf = [b as u8, 0x55];
        let mut rd = Bytes::new(&buf);
        let m = read_marker(&mut rd).unwrap();
        assert_eq!(m, Marker::from_u8(b as u8));
        assert_eq!(rd.position(), 1);
    }
}
