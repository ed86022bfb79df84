//! Scalar and collection value decoders, on concrete wire bytes.

use cdrs::data_serialization_types::{
    decode_ascii, decode_bigint, decode_blob, decode_boolean, decode_custom, decode_date,
    decode_decimal_parts, decode_double_bits, decode_float_bits, decode_inet, decode_int,
    decode_list, decode_map, decode_set, decode_smallint, decode_text, decode_time,
    decode_timestamp, decode_timeuuid, decode_tinyint, decode_udt, decode_varchar, decode_varint,
    InetAddr,
};
use cdrs::error::DecodeError;

#[test]
fn boolean_empty_fails() {
    assert_eq!(decode_boolean(&[]), Err(DecodeError::UnexpectedEndOfBuffer));
}

#[test]
fn boolean_zero_is_false() {
    assert_eq!(decode_boolean(&[0]), Ok(false));
}

#[test]
fn boolean_one_is_true() {
    assert_eq!(decode_boolean(&[1]), Ok(true));
}

#[test]
fn boolean_any_nonzero_is_true() {
    assert_eq!(decode_boolean(&[7]), Ok(true));
}

#[test]
fn int_positive() {
    assert_eq!(decode_int(&[0, 0, 0, 5]), Ok(5));
}

#[test]
fn int_minus_one() {
    assert_eq!(decode_int(&[255, 255, 255, 255]), Ok(-1));
}

#[test]
fn int_short_slice_fails() {
    assert_eq!(decode_int(&[0, 0, 5]), Err(DecodeError::InvalidLength));
}

#[test]
fn int_extremes() {
    assert_eq!(decode_int(&[128, 0, 0, 0]), Ok(i32::MIN));
    assert_eq!(decode_int(&[127, 255, 255, 255]), Ok(i32::MAX));
}

#[test]
fn int_injective_on_distinct_patterns() {
    let a = decode_int(&[0, 0, 0, 1]).unwrap();
    let b = decode_int(&[0, 0, 1, 0]).unwrap();
    assert_ne!(a, b);
}

#[test]
fn bigint_value() {
    assert_eq!(decode_bigint(&[0, 0, 0, 0, 0, 0, 1, 1]), Ok(257));
    assert_eq!(
        decode_bigint(&[255, 255, 255, 255, 255, 255, 255, 254]),
        Ok(-2)
    );
}

#[test]
fn bigint_wrong_width_fails() {
    assert_eq!(decode_bigint(&[0, 0, 0, 5]), Err(DecodeError::InvalidLength));
}

#[test]
fn smallint_value() {
    assert_eq!(decode_smallint(&[1, 2]), Ok(258));
    assert_eq!(decode_smallint(&[255, 255]), Ok(-1));
    assert_eq!(decode_smallint(&[1, 2, 3]), Err(DecodeError::InvalidLength));
}

#[test]
fn tinyint_value() {
    assert_eq!(decode_tinyint(&[5]), Ok(5));
    assert_eq!(decode_tinyint(&[255]), Ok(-1));
    assert_eq!(decode_tinyint(&[]), Err(DecodeError::InvalidLength));
}

#[test]
fn date_returns_raw_signed_value() {
    assert_eq!(decode_date(&[128, 0, 0, 0]), Ok(i32::MIN));
    assert_eq!(decode_date(&[0, 0, 0, 7]), Ok(7));
}

#[test]
fn timestamp_value() {
    assert_eq!(decode_timestamp(&[0, 0, 0, 0, 0, 0, 0, 42]), Ok(42));
    assert_eq!(decode_timestamp(&[1, 2, 3]), Err(DecodeError::InvalidLength));
}

#[test]
fn time_variable_width() {
    assert_eq!(decode_time(&[255]), Ok(-1));
    assert_eq!(decode_time(&[1, 0]), Ok(256));
    assert_eq!(decode_time(&[0, 0, 0, 0, 0, 0, 0, 0]), Ok(0));
    assert_eq!(decode_time(&[]), Err(DecodeError::InvalidLength));
    assert_eq!(
        decode_time(&[0, 0, 0, 0, 0, 0, 0, 0, 1]),
        Err(DecodeError::InvalidLength)
    );
}

#[test]
fn varint_variable_width() {
    assert_eq!(decode_varint(&[254]), Ok(-2));
    assert_eq!(decode_varint(&[0, 255]), Ok(255));
}

#[test]
fn blob_passes_through() {
    assert_eq!(decode_blob(vec![1, 2, 3]), Ok(vec![1, 2, 3]));
    assert_eq!(decode_blob(vec![]), Ok(vec![]));
}

#[test]
fn text_like_decoders_read_utf8() {
    assert_eq!(decode_text(b"hello").unwrap(), "hello");
    assert_eq!(decode_ascii(b"abc").unwrap(), "abc");
    assert_eq!(decode_varchar("caf\u{e9}".as_bytes()).unwrap(), "caf\u{e9}");
    assert_eq!(decode_custom(b"x").unwrap(), "x");
}

#[test]
fn text_invalid_utf8_is_replaced_not_rejected() {
    assert_eq!(decode_text(&[0xff, 0xfe]).unwrap(), "\u{fffd}\u{fffd}");
}

#[test]
fn inet_v4_is_the_four_bytes_in_order() {
    assert_eq!(
        decode_inet(&[10, 0, 0, 1]),
        Ok(InetAddr::V4(10, 0, 0, 1))
    );
}

#[test]
fn inet_v6_is_eight_big_endian_groups() {
    let bytes = [
        0x20, 0x01, 0x0d, 0xb8, 0x00, 0x00, 0x00, 0x00, 0x00, 0x00, 0x00, 0x00, 0x00, 0x00, 0x00,
        0x01,
    ];
    assert_eq!(
        decode_inet(&bytes),
        Ok(InetAddr::V6(0x2001, 0x0db8, 0, 0, 0, 0, 0, 1))
    );
}

#[test]
fn inet_other_lengths_fail() {
    assert_eq!(decode_inet(&[1, 2, 3]), Err(DecodeError::InvalidLength));
    assert_eq!(
        decode_inet(&[0; 8]),
        Err(DecodeError::InvalidLength)
    );
}

#[test]
fn double_bits_are_big_endian() {
    // 1.5f64 is 0x3FF8000000000000.
    assert_eq!(
        decode_double_bits(&[0x3f, 0xf8, 0, 0, 0, 0, 0, 0]),
        Ok(0x3ff8000000000000)
    );
    assert_eq!(
        decode_double_bits(&[0, 0, 0, 0]),
        Err(DecodeError::InvalidLength)
    );
}

#[test]
fn float_bits_are_big_endian() {
    // 1.5f32 is 0x3FC00000.
    assert_eq!(decode_float_bits(&[0x3f, 0xc0, 0, 0]), Ok(0x3fc00000));
    assert_eq!(decode_float_bits(&[0x3f]), Err(DecodeError::InvalidLength));
}

#[test]
fn decimal_parts_split_on_separator() {
    // [0,0,0,2] 'E' [254]: unscaled 2, scale -2.
    assert_eq!(
        decode_decimal_parts(&[0, 0, 0, 2, 69, 254]),
        Ok((2, -2))
    );
}

#[test]
fn decimal_second_separator_ends_the_scale() {
    assert_eq!(decode_decimal_parts(&[5, 69, 3, 69, 9]), Ok((5, 3)));
}

#[test]
fn decimal_without_separator_fails() {
    assert_eq!(
        decode_decimal_parts(&[0, 0, 0, 2]),
        Err(DecodeError::InvalidEncoding)
    );
}

#[test]
fn decimal_oversized_part_fails() {
    assert_eq!(
        decode_decimal_parts(&[1, 2, 3, 4, 5, 6, 7, 8, 9, 69, 1]),
        Err(DecodeError::InvalidLength)
    );
    assert_eq!(
        decode_decimal_parts(&[69, 1]),
        Err(DecodeError::InvalidLength)
    );
}

#[test]
fn timeuuid_reads_sixteen_bytes() {
    let bytes = [
        0xa1, 0xa2, 0xa3, 0xa4, 0xb1, 0xb2, 0xc1, 0xc2, 0xd1, 0xd2, 0xd3, 0xd4, 0xd5, 0xd6, 0xd7,
        0xd8,
    ];
    let u = decode_timeuuid(&bytes).unwrap();
    assert_eq!(u, uuid::Uuid::from_bytes(bytes));
}

#[test]
fn timeuuid_wrong_length_fails() {
    assert_eq!(
        decode_timeuuid(&[0; 15]),
        Err(DecodeError::InvalidEncoding)
    );
}

#[test]
fn list_preserves_order() {
    // count 2, blob [0xAA], blob [0xBB, 0xCC].
    let bytes = [
        0, 0, 0, 2, 0, 0, 0, 1, 0xAA, 0, 0, 0, 2, 0xBB, 0xCC,
    ];
    let items = decode_list(&bytes).unwrap();
    assert_eq!(items.len(), 2);
    assert_eq!(items[0].bytes().unwrap(), &vec![0xAA]);
    assert_eq!(items[1].bytes().unwrap(), &vec![0xBB, 0xCC]);
}

#[test]
fn list_short_element_fails() {
    let bytes = [0, 0, 0, 1, 0, 0, 0, 5, 1, 2];
    assert_eq!(
        decode_list(&bytes).unwrap_err(),
        DecodeError::UnexpectedEndOfBuffer
    );
}

#[test]
fn list_negative_count_is_empty() {
    let bytes = [255, 255, 255, 255];
    assert_eq!(decode_list(&bytes).unwrap().len(), 0);
}

#[test]
fn set_reads_like_a_list() {
    let bytes = [0, 0, 0, 1, 0, 0, 0, 1, 0x42];
    let items = decode_set(&bytes).unwrap();
    assert_eq!(items.len(), 1);
    assert_eq!(items[0].bytes().unwrap(), &vec![0x42]);
}

#[test]
fn map_returns_pairs_in_order() {
    // count 1, key [0x01], value [0x02, 0x03].
    let bytes = [0, 0, 0, 1, 0, 0, 0, 1, 0x01, 0, 0, 0, 2, 0x02, 0x03];
    let pairs = decode_map(&bytes).unwrap();
    assert_eq!(pairs.len(), 1);
    assert_eq!(pairs[0].0.bytes().unwrap(), &vec![0x01]);
    assert_eq!(pairs[0].1.bytes().unwrap(), &vec![0x02, 0x03]);
}

#[test]
fn map_keeps_duplicate_keys() {
    let bytes = [
        0, 0, 0, 2, 0, 0, 0, 1, 0x01, 0, 0, 0, 1, 0x0A, 0, 0, 0, 1, 0x01, 0, 0, 0, 1, 0x0B,
    ];
    let pairs = decode_map(&bytes).unwrap();
    assert_eq!(pairs.len(), 2);
    assert_eq!(pairs[0].1.bytes().unwrap(), &vec![0x0A]);
    assert_eq!(pairs[1].1.bytes().unwrap(), &vec![0x0B]);
}

#[test]
fn udt_reads_exactly_the_declared_count() {
    let bytes = [0, 0, 0, 1, 0x07, 0, 0, 0, 2, 0x08, 0x09];
    let fields = decode_udt(&bytes, 2).unwrap();
    assert_eq!(fields.len(), 2);
    assert_eq!(fields[0].bytes().unwrap(), &vec![0x07]);
    assert_eq!(fields[1].bytes().unwrap(), &vec![0x08, 0x09]);
}

#[test]
fn udt_null_field_is_preserved() {
    // One null blob (length -1), one empty blob (length 0).
    let bytes = [255, 255, 255, 255, 0, 0, 0, 0];
    let fields = decode_udt(&bytes, 2).unwrap();
    assert!(fields[0].is_null());
    assert!(!fields[1].is_null());
    assert_eq!(fields[1].bytes().unwrap(), &Vec::<u8>::new());
}
