//! Primitive decoders over in-memory sources: nil, booleans, integers of
//! every width, and the error taxonomy around them.

use rmp::bytes::{Bytes, BytesReadError};
use rmp::decode::{read_bool, read_int, read_marker, read_nil};
use rmp::errors::{NumValueReadError, ValueReadError};
use rmp::Marker;

#[test]
fn nil_decodes() {
    let buf = [0xc0];
    let mut rd = Bytes::new(&buf);
    assert_eq!(read_nil(&mut rd), Ok(()));
    assert_eq!(rd.position(), 1);
}

#[test]
fn nil_mismatch_names_the_marker_found() {
    let buf = [0xc3, 0xc0];
    let mut rd = Bytes::new(&buf);
    assert_eq!(read_nil(&mut rd), Err(ValueReadError::TypeMismatch(Marker::True)));
    assert_eq!(rd.position(), 1);
}

#[test]
fn bool_decodes_both_fixed_bytes() {
    let buf = [0xc3, 0xc2];
    let mut rd = Bytes::new(&buf);
    assert_eq!(read_bool(&mut rd), Ok(true));
    assert_eq!(read_bool(&mut rd), Ok(false));
    assert_eq!(rd.position(), 2);
}

#[test]
fn bool_mismatch_consumes_only_the_marker() {
    let buf = [0xc0, 0xc3];
    let mut rd = Bytes::new(&buf);
    assert_eq!(read_bool(&mut rd), Err(ValueReadError::TypeMismatch(Marker::Null)));
    assert_eq!(rd.position(), 1);
    assert_eq!(read_bool(&mut rd), Ok(true));
}

#[test]
fn bool_rejects_the_reserved_byte() {
    let buf = [0xc1];
    let mut rd = Bytes::new(&buf);
    assert_eq!(read_bool(&mut rd), Err(ValueReadError::TypeMismatch(Marker::Reserved)));
}

#[test]
fn marker_read_failure_on_empty_input() {
    let buf = [];
    let mut rd = Bytes::new(&buf);
    assert!(read_marker(&mut rd).is_err());
    let mut rd2 = Bytes::new(&buf);
    assert_eq!(
        read_nil(&mut rd2),
        Err(ValueReadError::InvalidMarkerRead(BytesReadError {
            expected: 1,
            actual: 0,
            position: 0,
        }))
    );
}

#[test]
fn unsigned_round_trip_boundaries() {
    let cases: &[(&[u8], u64)] = &[
        (&[0x00], 0),
        (&[0x7f], 127),
        (&[0xcc, 0x80], 128),
        (&[0xcc, 0xff], 255),
        (&[0xcd, 0x01, 0x00], 256),
        (&[0xcd, 0xff, 0xff], 65535),
        (&[0xce, 0x00, 0x01, 0x00, 0x00], 65536),
        (&[0xce, 0xff, 0xff, 0xff, 0xff], 0xffff_ffff),
        (&[0xcf, 0x00, 0x00, 0x00, 0x01, 0x00, 0x00, 0x00, 0x00], 0x1_0000_0000),
        (&[0xcf, 0xff, 0xff, 0xff, 0xff, 0xff, 0xff, 0xff, 0xff], u64::MAX),
    ];
    for (bytes, expected) in cases {
        let mut rd = Bytes::new(bytes);
        let got: u64 = read_int(&mut rd).unwrap();
        assert_eq!(got, *expected);
        assert_eq!(rd.position() as usize, bytes.len());
    }
}

#[test]
fn signed_round_trip_boundaries() {
    let cases: &[(&[u8], i64)] = &[
        (&[0xff], -1),
        (&[0xe0], -32),
        (&[0xd0, 0xdf], -33),
        (&[0xd0, 0x80], -128),
        (&[0xd1, 0xff, 0x7f], -129),
        (&[0xd1, 0x80, 0x00], -32768),
        (&[0xd2, 0xff, 0xff, 0x7f, 0xff], -32769),
        (&[0xd2, 0x80, 0x00, 0x00, 0x00], -0x8000_0000),
        (&[0xd3, 0xff, 0xff, 0xff, 0xff, 0x7f, 0xff, 0xff, 0xff], -0x8000_0001),
        (&[0xd3, 0x80, 0x00, 0x00, 0x00, 0x00, 0x00, 0x00, 0x00], i64::MIN),
    ];
    for (bytes, expected) in cases {
        let mut rd = Bytes::new(bytes);
        let got: i64 = read_int(&mut rd).unwrap();
        assert_eq!(got, *expected);
        assert_eq!(rd.position() as usize, bytes.len());
    }
}

#[test]
fn generic_reader_decodes_300_into_every_wide_enough_type() {
    let buf = [0xcd, 0x01, 0x2c];
    assert_eq!(300u16, read_int(&mut Bytes::new(&buf)).unwrap());
    assert_eq!(300i16, read_int(&mut Bytes::new(&buf)).unwrap());
    assert_eq!(300u32, read_int(&mut Bytes::new(&buf)).unwrap());
    assert_eq!(300i32, read_int(&mut Bytes::new(&buf)).unwrap());
    assert_eq!(300u64, read_int(&mut Bytes::new(&buf)).unwrap());
    assert_eq!(300i64, read_int(&mut Bytes::new(&buf)).unwrap());
    assert_eq!(300usize, read_int(&mut Bytes::new(&buf)).unwrap());
    assert_eq!(300isize, read_int(&mut Bytes::new(&buf)).unwrap());
}

#[test]
fn out_of_range_is_distinct_from_type_mismatch() {
    let buf = [0xcd, 0x01, 0x2c];
    let mut rd = Bytes::new(&buf);
    let r: Result<u8, _> = read_int(&mut rd);
    assert_eq!(r, Err(NumValueReadError::OutOfRange));
    assert_eq!(rd.position(), 3);

    let neg = [0xe0];
    let r: Result<u8, _> = read_int(&mut Bytes::new(&neg));
    assert_eq!(r, Err(NumValueReadError::OutOfRange));
    let r: Result<i8, _> = read_int(&mut Bytes::new(&neg));
    assert_eq!(r, Ok(-32));
}

#[test]
fn signed_markers_feed_unsigned_targets_when_the_value_fits() {
    let buf = [0xd1, 0x01, 0x2c];
    let r: Result<u16, _> = read_int(&mut Bytes::new(&buf));
    assert_eq!(r, Ok(300));
    let buf = [0xd0, 0x05];
    let r: Result<u64, _> = read_int(&mut Bytes::new(&buf));
    assert_eq!(r, Ok(5));
}

#[test]
fn int_mismatch_consumes_only_the_marker() {
    let buf = [0xc2, 0x01];
    let mut rd = Bytes::new(&buf);
    let r: Result<u32, _> = read_int(&mut rd);
    assert_eq!(r, Err(NumValueReadError::TypeMismatch(Marker::False)));
    assert_eq!(rd.position(), 1);
}

#[test]
fn int_payload_exhaustion_is_end_of_input() {
    let buf = [0xcd, 0x01];
    let mut rd = Bytes::new(&buf);
    let r: Result<u16, _> = read_int(&mut rd);
    assert_eq!(
        r,
        Err(NumValueReadError::InvalidDataRead(BytesReadError {
            expected: 2,
            actual: 1,
            position: 1,
        }))
    );
}
