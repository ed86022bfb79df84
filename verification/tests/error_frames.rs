//! ERROR frame bodies decoded end to end, on concrete wire bytes.

use cdrs::consistency::Consistency;
use cdrs::cursor::Cursor;
use cdrs::error::DecodeError;
use cdrs::frame_error::{
    AdditionalErrorInfo, AlreadyExistsError, CDRSError, FunctionFailureError, ReadTimeoutError,
    UnavailableError, UnpreparedError, WriteType,
};
use cdrs::types::{CBytes, CString, CStringList};

/// A string field: 2-byte length, then the content.
fn cstring_bytes(s: &str) -> Vec<u8> {
    let mut v = vec![(s.len() >> 8) as u8, s.len() as u8];
    v.extend_from_slice(s.as_bytes());
    v
}

#[test]
fn unavailable_fields_in_order() {
    // code 0x1000, empty message, consistency THREE, required 3, alive 2.
    let mut body = vec![0x00, 0x00, 0x10, 0x00];
    body.extend_from_slice(&cstring_bytes(""));
    body.extend_from_slice(&[0x00, 0x03]);
    body.extend_from_slice(&[0, 0, 0, 3]);
    body.extend_from_slice(&[0, 0, 0, 2]);
    let mut c = Cursor::new(&body);
    let report = CDRSError::from_cursor(&mut c).unwrap();
    assert_eq!(report.error_code, 0x1000);
    match report.additional_info {
        AdditionalErrorInfo::Unavailable(u) => {
            assert_eq!(u.cl, Consistency::Three);
            assert_eq!(u.required, 3);
            assert_eq!(u.alive, 2);
        }
        _ => panic!("wrong variant"),
    }
}

#[test]
fn unknown_error_code_fails_without_panicking() {
    let mut body = vec![0x00, 0x00, 0x99, 0x99];
    body.extend_from_slice(&cstring_bytes("boom"));
    let mut c = Cursor::new(&body);
    assert_eq!(
        CDRSError::from_cursor(&mut c).unwrap_err(),
        DecodeError::UnknownDiscriminant
    );
}

#[test]
fn message_is_read_before_the_payload() {
    // code 0x0000 (no payload), message "went wrong".
    let mut body = vec![0, 0, 0, 0];
    body.extend_from_slice(&cstring_bytes("went wrong"));
    let mut c = Cursor::new(&body);
    let report = CDRSError::from_cursor(&mut c).unwrap();
    assert_eq!(report.error_code, 0);
    assert_eq!(report.message.as_plain_string(), "went wrong");
    assert!(matches!(
        report.additional_info,
        AdditionalErrorInfo::Server(_)
    ));
}

#[test]
fn truncated_code_fails() {
    let body = [0x00, 0x10];
    let mut c = Cursor::new(&body);
    assert_eq!(
        CDRSError::from_cursor(&mut c).unwrap_err(),
        DecodeError::UnexpectedEndOfBuffer
    );
}

#[test]
fn truncated_message_fails() {
    // code then a length prefix promising more bytes than remain.
    let body = [0, 0, 0, 0, 0, 9, 0x61];
    let mut c = Cursor::new(&body);
    assert_eq!(
        CDRSError::from_cursor(&mut c).unwrap_err(),
        DecodeError::UnexpectedEndOfBuffer
    );
}

#[test]
fn write_type_batch_log_decodes() {
    let body = cstring_bytes("BATCH_LOG");
    let mut c = Cursor::new(&body);
    assert_eq!(WriteType::from_cursor(&mut c).unwrap(), WriteType::BatchLog);
}

#[test]
fn write_type_all_known_tags() {
    for (tag, expect) in [
        ("SIMPLE", WriteType::Simple),
        ("BATCH", WriteType::Batch),
        ("UNLOGGED_BATCH", WriteType::UnloggedBatch),
        ("COUNTER", WriteType::Counter),
        ("BATCH_LOG", WriteType::BatchLog),
    ] {
        let body = cstring_bytes(tag);
        let mut c = Cursor::new(&body);
        assert_eq!(WriteType::from_cursor(&mut c).unwrap(), expect);
    }
}

#[test]
fn write_type_unknown_tag_fails() {
    let body = cstring_bytes("BOGUS");
    let mut c = Cursor::new(&body);
    assert_eq!(
        WriteType::from_cursor(&mut c).unwrap_err(),
        DecodeError::UnknownDiscriminant
    );
}

#[test]
fn write_timeout_reads_the_tag_last() {
    // code 0x1100, message "", consistency ONE, received 1, blockfor 2,
    // write type SIMPLE.
    let mut body = vec![0x00, 0x00, 0x11, 0x00];
    body.extend_from_slice(&cstring_bytes(""));
    body.extend_from_slice(&[0x00, 0x01]);
    body.extend_from_slice(&[0, 0, 0, 1]);
    body.extend_from_slice(&[0, 0, 0, 2]);
    body.extend_from_slice(&cstring_bytes("SIMPLE"));
    let mut c = Cursor::new(&body);
    let report = CDRSError::from_cursor(&mut c).unwrap();
    match report.additional_info {
        AdditionalErrorInfo::WriteTimeout(w) => {
            assert_eq!(w.cl, Consistency::One);
            assert_eq!(w.received, 1);
            assert_eq!(w.blockfor, 2);
            assert_eq!(w.write_type, WriteType::Simple);
        }
        _ => panic!("wrong variant"),
    }
}

#[test]
fn read_timeout_flag_byte_drives_the_accessor() {
    // consistency QUORUM, received 1, blockfor 2, flag 5 (nonzero).
    let mut body = vec![0x00, 0x04];
    body.extend_from_slice(&[0, 0, 0, 1]);
    body.extend_from_slice(&[0, 0, 0, 2]);
    body.push(5);
    let mut c = Cursor::new(&body);
    let e = ReadTimeoutError::from_cursor(&mut c).unwrap();
    assert!(e.replica_has_responded());

    let mut body2 = vec![0x00, 0x04];
    body2.extend_from_slice(&[0, 0, 0, 1]);
    body2.extend_from_slice(&[0, 0, 0, 2]);
    body2.push(0);
    let mut c2 = Cursor::new(&body2);
    let e2 = ReadTimeoutError::from_cursor(&mut c2).unwrap();
    assert!(!e2.replica_has_responded());
}

#[test]
fn read_timeout_missing_flag_byte_fails() {
    let mut body = vec![0x00, 0x04];
    body.extend_from_slice(&[0, 0, 0, 1]);
    body.extend_from_slice(&[0, 0, 0, 2]);
    let mut c = Cursor::new(&body);
    assert_eq!(
        ReadTimeoutError::from_cursor(&mut c).unwrap_err(),
        DecodeError::UnexpectedEndOfBuffer
    );
}

#[test]
fn read_failure_counts_and_flag() {
    // code 0x1300, message "", consistency TWO, received 4, blockfor 5,
    // failures 1, flag 0.
    let mut body = vec![0x00, 0x00, 0x13, 0x00];
    body.extend_from_slice(&cstring_bytes(""));
    body.extend_from_slice(&[0x00, 0x02]);
    body.extend_from_slice(&[0, 0, 0, 4]);
    body.extend_from_slice(&[0, 0, 0, 5]);
    body.extend_from_slice(&[0, 0, 0, 1]);
    body.push(0);
    let mut c = Cursor::new(&body);
    let report = CDRSError::from_cursor(&mut c).unwrap();
    match report.additional_info {
        AdditionalErrorInfo::ReadFailure(f) => {
            assert_eq!(f.cl, Consistency::Two);
            assert_eq!(f.received, 4);
            assert_eq!(f.blockfor, 5);
            assert_eq!(f.num_failures, 1);
            assert!(!f.replica_has_responded());
        }
        _ => panic!("wrong variant"),
    }
}

#[test]
fn function_failure_reads_the_exact_argument_count() {
    let mut body = cstring_bytes("ks");
    body.extend_from_slice(&cstring_bytes("fun"));
    body.extend_from_slice(&[0x00, 0x02]);
    body.extend_from_slice(&cstring_bytes("int"));
    body.extend_from_slice(&cstring_bytes("text"));
    let mut c = Cursor::new(&body);
    let e = FunctionFailureError::from_cursor(&mut c).unwrap();
    assert_eq!(e.keyspace.as_plain_string(), "ks");
    assert_eq!(e.function.as_plain_string(), "fun");
    assert_eq!(e.arg_types.len(), 2);
    assert_eq!(e.arg_types.get(0).as_plain_string(), "int");
    assert_eq!(e.arg_types.get(1).as_plain_string(), "text");
}

#[test]
fn function_failure_short_list_fails() {
    let mut body = cstring_bytes("ks");
    body.extend_from_slice(&cstring_bytes("fun"));
    body.extend_from_slice(&[0x00, 0x02]);
    body.extend_from_slice(&cstring_bytes("int"));
    let mut c = Cursor::new(&body);
    assert_eq!(
        FunctionFailureError::from_cursor(&mut c).unwrap_err(),
        DecodeError::UnexpectedEndOfBuffer
    );
}

#[test]
fn write_failure_through_the_dispatch() {
    let mut body = vec![0x00, 0x00, 0x15, 0x00];
    body.extend_from_slice(&cstring_bytes("w"));
    body.extend_from_slice(&[0x00, 0x05]);
    body.extend_from_slice(&[0, 0, 0, 9]);
    body.extend_from_slice(&[0, 0, 0, 8]);
    body.extend_from_slice(&[0, 0, 0, 7]);
    body.extend_from_slice(&cstring_bytes("COUNTER"));
    let mut c = Cursor::new(&body);
    let report = CDRSError::from_cursor(&mut c).unwrap();
    match report.additional_info {
        AdditionalErrorInfo::WriteFailure(w) => {
            assert_eq!(w.cl, Consistency::All);
            assert_eq!(w.received, 9);
            assert_eq!(w.blockfor, 8);
            assert_eq!(w.num_failures, 7);
            assert_eq!(w.write_type, WriteType::Counter);
        }
        _ => panic!("wrong variant"),
    }
}

#[test]
fn already_exists_reads_keyspace_then_table() {
    let mut body = cstring_bytes("ks1");
    body.extend_from_slice(&cstring_bytes("t1"));
    let mut c = Cursor::new(&body);
    let e = AlreadyExistsError::from_cursor(&mut c).unwrap();
    assert_eq!(e.ks.as_plain_string(), "ks1");
    assert_eq!(e.table.as_plain_string(), "t1");
}

#[test]
fn unprepared_id_may_be_empty() {
    let body = [0, 0, 0, 0];
    let mut c = Cursor::new(&body);
    let e = UnpreparedError::from_cursor(&mut c).unwrap();
    assert!(!e.id.is_null());
    assert_eq!(e.id.bytes().unwrap(), &Vec::<u8>::new());
}

#[test]
fn unprepared_id_null_marker() {
    let body = [255, 255, 255, 255];
    let mut c = Cursor::new(&body);
    let e = UnpreparedError::from_cursor(&mut c).unwrap();
    assert!(e.id.is_null());
}

#[test]
fn unprepared_other_negative_length_fails() {
    let body = [255, 255, 255, 254];
    let mut c = Cursor::new(&body);
    assert_eq!(
        UnpreparedError::from_cursor(&mut c).unwrap_err(),
        DecodeError::InvalidLength
    );
}

#[test]
fn unavailable_unknown_consistency_fails() {
    let mut body = vec![0x00, 0x63];
    body.extend_from_slice(&[0, 0, 0, 1]);
    body.extend_from_slice(&[0, 0, 0, 1]);
    let mut c = Cursor::new(&body);
    assert_eq!(
        UnavailableError::from_cursor(&mut c).unwrap_err(),
        DecodeError::UnknownDiscriminant
    );
}

#[test]
fn simple_payload_codes_dispatch_to_their_variants() {
    for (code, check) in [
        (0x0000i32, 0usize),
        (0x000A, 1),
        (0x0100, 2),
        (0x1001, 3),
        (0x1002, 4),
        (0x1003, 5),
        (0x2000, 6),
        (0x2100, 7),
        (0x2200, 8),
        (0x2300, 9),
    ] {
        let mut body = code.to_be_bytes().to_vec();
        body.extend_from_slice(&cstring_bytes("m"));
        let mut c = Cursor::new(&body);
        let report = CDRSError::from_cursor(&mut c).unwrap();
        assert_eq!(report.error_code, code);
        let got = match report.additional_info {
            AdditionalErrorInfo::Server(_) => 0,
            AdditionalErrorInfo::Protocol(_) => 1,
            AdditionalErrorInfo::Authentication(_) => 2,
            AdditionalErrorInfo::Overloaded(_) => 3,
            AdditionalErrorInfo::IsBootstrapping(_) => 4,
            AdditionalErrorInfo::Truncate(_) => 5,
            AdditionalErrorInfo::Syntax(_) => 6,
            AdditionalErrorInfo::Unauthorized(_) => 7,
            AdditionalErrorInfo::Invalid(_) => 8,
            AdditionalErrorInfo::Config(_) => 9,
            _ => usize::MAX,
        };
        assert_eq!(got, check);
    }
}

#[test]
fn cstring_round_trips_through_the_wire_shape() {
    let body = cstring_bytes("abc");
    let mut c = Cursor::new(&body);
    let cs = CString::from_cursor(&mut c).unwrap();
    assert_eq!(cs.as_bytes(), b"abc");
}

#[test]
fn cstring_list_preserves_order() {
    let mut body = vec![0x00, 0x03];
    body.extend_from_slice(&cstring_bytes("a"));
    body.extend_from_slice(&cstring_bytes("b"));
    body.extend_from_slice(&cstring_bytes("c"));
    let mut c = Cursor::new(&body);
    let l = CStringList::from_cursor(&mut c).unwrap();
    assert_eq!(l.len(), 3);
    assert_eq!(l.get(0).as_plain_string(), "a");
    assert_eq!(l.get(1).as_plain_string(), "b");
    assert_eq!(l.get(2).as_plain_string(), "c");
}

#[test]
fn cbytes_from_cursor_reads_the_declared_length() {
    let body = [0, 0, 0, 2, 0xDE, 0xAD, 0x99];
    let mut c = Cursor::new(&body);
    let b = CBytes::from_cursor(&mut c).unwrap();
    assert_eq!(b.bytes().unwrap(), &vec![0xDE, 0xAD]);
}

#[test]
fn consistency_codes_decode() {
    for (code, expect) in [
        (0u8, Consistency::Any),
        (1, Consistency::One),
        (2, Consistency::Two),
        (3, Consistency::Three),
        (4, Consistency::Quorum),
        (5, Consistency::All),
        (6, Consistency::LocalQuorum),
        (7, Consistency::EachQuorum),
        (8, Consistency::Serial),
        (9, Consistency::LocalSerial),
        (10, Consistency::LocalOne),
    ] {
        let body = [0x00, code];
        let mut c = Cursor::new(&body);
        assert_eq!(Consistency::from_cursor(&mut c).unwrap(), expect);
    }
}
