//! Container-length decoders: arrays, maps, binary and string lengths, and
//! extension headers.

use rmp::bytes::{Bytes, BytesReadError};
use rmp::decode::{
    marker_to_len, read_array_len, read_bin_len, read_ext_meta, read_map_len, read_marker,
    read_str_len, ExtMeta,
};
use rmp::errors::ValueReadError;
use rmp::Marker;

#[test]
fn array_len_all_size_classes() {
    assert_eq!(read_array_len(&mut Bytes::new(&[0x90])), Ok(0));
    assert_eq!(read_array_len(&mut Bytes::new(&[0x93])), Ok(3));
    assert_eq!(read_array_len(&mut Bytes::new(&[0x9f])), Ok(15));
    assert_eq!(read_array_len(&mut Bytes::new(&[0xdc, 0x01, 0x00])), Ok(256));
    assert_eq!(
        read_array_len(&mut Bytes::new(&[0xdd, 0xde, 0xad, 0xbe, 0xef])),
        Ok(0xdead_beef)
    );
}

#[test]
fn array_len_mismatch_consumes_only_the_marker() {
    let buf = [0x82, 0x00];
    let mut rd = Bytes::new(&buf);
    assert_eq!(
        read_array_len(&mut rd),
        Err(ValueReadError::TypeMismatch(Marker::FixMap(2)))
    );
    assert_eq!(rd.position(), 1);
}

#[test]
fn map_len_all_size_classes() {
    assert_eq!(read_map_len(&mut Bytes::new(&[0x80])), Ok(0));
    assert_eq!(read_map_len(&mut Bytes::new(&[0x82])), Ok(2));
    assert_eq!(read_map_len(&mut Bytes::new(&[0xde, 0x10, 0x00])), Ok(0x1000));
    assert_eq!(
        read_map_len(&mut Bytes::new(&[0xdf, 0x00, 0x10, 0x00, 0x00])),
        Ok(0x10_0000)
    );
}

#[test]
fn marker_to_len_works_on_a_marker_read_apart() {
    let buf = [0xde, 0x00, 0x07];
    let mut rd = Bytes::new(&buf);
    let m = read_marker(&mut rd).unwrap();
    assert_eq!(m, Marker::Map16);
    assert_eq!(marker_to_len(&mut rd, m), Ok(7));
    assert_eq!(rd.position(), 3);
}

#[test]
fn marker_to_len_mismatch_consumes_nothing_further() {
    let buf = [0x93];
    let mut rd = Bytes::new(&buf);
    let m = read_marker(&mut rd).unwrap();
    assert_eq!(
        marker_to_len(&mut rd, m),
        Err(ValueReadError::TypeMismatch(Marker::FixArray(3)))
    );
    assert_eq!(rd.position(), 1);
}

#[test]
fn bin_len_all_size_classes() {
    assert_eq!(read_bin_len(&mut Bytes::new(&[0xc4, 0x05])), Ok(5));
    assert_eq!(read_bin_len(&mut Bytes::new(&[0xc5, 0x01, 0x00])), Ok(256));
    assert_eq!(
        read_bin_len(&mut Bytes::new(&[0xc6, 0x00, 0x01, 0x00, 0x00])),
        Ok(0x1_0000)
    );
}

#[test]
fn bin_len_rejects_str_markers() {
    let mut rd = Bytes::new(&[0xa3]);
    assert_eq!(
        read_bin_len(&mut rd),
        Err(ValueReadError::TypeMismatch(Marker::FixStr(3)))
    );
}

#[test]
fn str_len_all_size_classes() {
    assert_eq!(read_str_len(&mut Bytes::new(&[0xa0])), Ok(0));
    assert_eq!(read_str_len(&mut Bytes::new(&[0xa5])), Ok(5));
    assert_eq!(read_str_len(&mut Bytes::new(&[0xbf])), Ok(31));
    assert_eq!(read_str_len(&mut Bytes::new(&[0xd9, 0x20])), Ok(32));
    assert_eq!(read_str_len(&mut Bytes::new(&[0xda, 0x01, 0x00])), Ok(256));
    assert_eq!(
        read_str_len(&mut Bytes::new(&[0xdb, 0x00, 0x01, 0x00, 0x00])),
        Ok(0x1_0000)
    );
}

#[test]
fn len_decoding_reports_claims_without_bounding_them() {
    // A 32-bit length may claim far more data than the source holds; the
    // header decoder reports the claim as decoded and leaves the check to the
    // caller.
    let mut rd = Bytes::new(&[0xdd, 0xff, 0xff, 0xff, 0xff]);
    assert_eq!(read_array_len(&mut rd), Ok(u32::MAX));
    assert_eq!(rd.position(), 5);
}

#[test]
fn sixteen_bit_length_exhaustion_is_end_of_input() {
    // Marker and one of the two claimed length bytes present: the length
    // payload itself cannot be read in full.
    let buf = [0xdc, 0x01];
    let mut rd = Bytes::new(&buf);
    assert_eq!(
        read_array_len(&mut rd),
        Err(ValueReadError::InvalidDataRead(BytesReadError {
            expected: 2,
            actual: 1,
            position: 1,
        }))
    );
}

#[test]
fn ext_meta_fixed_sizes() {
    assert_eq!(
        read_ext_meta(&mut Bytes::new(&[0xd4, 0x05])),
        Ok(ExtMeta { typ: 5, size: 1 })
    );
    assert_eq!(
        read_ext_meta(&mut Bytes::new(&[0xd5, 0xff])),
        Ok(ExtMeta { typ: -1, size: 2 })
    );
    assert_eq!(
        read_ext_meta(&mut Bytes::new(&[0xd6, 0x00])),
        Ok(ExtMeta { typ: 0, size: 4 })
    );
    assert_eq!(
        read_ext_meta(&mut Bytes::new(&[0xd7, 0x7f])),
        Ok(ExtMeta { typ: 127, size: 8 })
    );
    assert_eq!(
        read_ext_meta(&mut Bytes::new(&[0xd8, 0x80])),
        Ok(ExtMeta { typ: -128, size: 16 })
    );
}

#[test]
fn ext_meta_length_prefixed_sizes() {
    let mut rd = Bytes::new(&[0xc7, 0x10, 0x02]);
    assert_eq!(read_ext_meta(&mut rd), Ok(ExtMeta { typ: 2, size: 16 }));
    assert_eq!(rd.position(), 3);
    assert_eq!(
        read_ext_meta(&mut Bytes::new(&[0xc8, 0x01, 0x00, 0x09])),
        Ok(ExtMeta { typ: 9, size: 256 })
    );
    assert_eq!(
        read_ext_meta(&mut Bytes::new(&[0xc9, 0x00, 0x01, 0x00, 0x00, 0xfe])),
        Ok(ExtMeta { typ: -2, size: 0x1_0000 })
    );
}

#[test]
fn ext_meta_mismatch_consumes_only_the_marker() {
    let mut rd = Bytes::new(&[0xcc, 0x05]);
    assert_eq!(
        read_ext_meta(&mut rd),
        Err(ValueReadError::TypeMismatch(Marker::U8))
    );
    assert_eq!(rd.position(), 1);
}
