//! String decoding: the zero-copy borrowing path over a slice source and the
//! owned-copy path, and exhaustion reporting.

use rmp::bytes::{Bytes, BytesReadError};
use rmp::decode::{read_str_bytes, read_str_ref};
use rmp::errors::ValueReadError;
use rmp::Marker;

#[test]
fn str_ref_borrows_from_the_original_buffer() {
    let buf = [0xa3, b'a', b'b', b'c', 0xc0];
    let mut rd = Bytes::new(&buf);
    let v = read_str_ref(&mut rd).unwrap();
    assert_eq!(v, b"abc");
    // The view's storage lies inside the input buffer: no allocation was made.
    let base = buf.as_ptr() as usize;
    let view = v.as_ptr() as usize;
    assert!(base <= view && view + v.len() <= base + buf.len());
    assert_eq!(rd.position(), 4);
}

#[test]
fn str_ref_all_size_classes() {
    let empty = [0xa0];
    assert_eq!(read_str_ref(&mut Bytes::new(&empty)).unwrap(), b"");

    let mut long8 = vec![0xd9, 0x20];
    long8.extend(std::iter::repeat(b'x').take(32));
    assert_eq!(read_str_ref(&mut Bytes::new(&long8)).unwrap().len(), 32);

    let mut long16 = vec![0xda, 0x01, 0x00];
    long16.extend(std::iter::repeat(b'y').take(256));
    assert_eq!(read_str_ref(&mut Bytes::new(&long16)).unwrap().len(), 256);

    let mut long32 = vec![0xdb, 0x00, 0x00, 0x01, 0x00];
    long32.extend(std::iter::repeat(b'z').take(256));
    assert_eq!(read_str_ref(&mut Bytes::new(&long32)).unwrap().len(), 256);
}

#[test]
fn str_bytes_copies_the_same_payload() {
    let buf = [0xa5, b'h', b'e', b'l', b'l', b'o'];
    let mut rd = Bytes::new(&buf);
    let v = read_str_bytes(&mut rd).unwrap();
    assert_eq!(v, b"hello".to_vec());
    assert_eq!(rd.position(), 6);
}

#[test]
fn str_mismatch_consumes_only_the_marker() {
    let buf = [0xc4, 0x03, b'a', b'b', b'c'];
    let mut rd = Bytes::new(&buf);
    assert_eq!(
        read_str_ref(&mut rd),
        Err(ValueReadError::TypeMismatch(Marker::Bin8))
    );
    assert_eq!(rd.position(), 1);
}

#[test]
fn three_byte_slice_claiming_sixteen_bit_length_is_end_of_input() {
    // Marker and both length bytes present, zero of the five claimed data
    // bytes: precisely an unexpected end of input, not a generic fault.
    let buf = [0xda, 0x00, 0x05];
    let mut rd = Bytes::new(&buf);
    assert_eq!(
        read_str_bytes(&mut rd),
        Err(ValueReadError::InvalidDataRead(BytesReadError {
            expected: 5,
            actual: 0,
            position: 3,
        }))
    );
    let mut rd2 = Bytes::new(&buf);
    assert_eq!(
        read_str_ref(&mut rd2),
        Err(ValueReadError::InvalidDataRead(BytesReadError {
            expected: 5,
            actual: 0,
            position: 3,
        }))
    );
}

#[test]
fn remaining_slice_tracks_consumption() {
    let buf = [0xa1, b'q', 0xc2];
    let mut rd = Bytes::new(&buf);
    assert_eq!(rd.remaining_slice(), &buf[..]);
    let v = read_str_ref(&mut rd).unwrap();
    assert_eq!(v, b"q");
    assert_eq!(rd.remaining_slice(), &[0xc2][..]);
}
