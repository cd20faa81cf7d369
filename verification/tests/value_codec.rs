//! The tagged value wire format: round trips and distinguished decode errors.

use rkv::error::DataError;
use rkv::value::{Value, TAG_BOOL, TAG_STR, TAG_U64};

#[test]
fn value_round_trip_every_variant() {
    let values = vec![
        Value::Bool(true),
        Value::Bool(false),
        Value::I64(-40),
        Value::I64(i64::MIN),
        Value::U64(u64::MAX),
        Value::F64(0x4009_21fb_5444_2d18),
        Value::Instant(1_699_999_999),
        Value::Uuid(0x0102_0304_0506_0708_090a_0b0c_0d0e_0f10),
        Value::Str(String::from("hello!")),
        Value::Str(String::new()),
        Value::Str(String::from("héllo, wörld")),
        Value::Json(String::from("{\"a\":[1,2,3]}")),
        Value::Blob(vec![]),
        Value::Blob(vec![0, 255, 1, 254]),
    ];
    for v in values {
        let bytes = v.to_bytes().expect("encode");
        let back = Value::from_tagged_slice(&bytes).expect("decode");
        assert_eq!(back, v);
    }
}

#[test]
fn value_exact_encoding_of_str() {
    let bytes = Value::Str(String::from("hi")).to_bytes().expect("encode");
    assert_eq!(bytes, vec![TAG_STR, 2, 0, 0, 0, b'h', b'i']);
}

#[test]
fn value_exact_encoding_of_bool() {
    assert_eq!(Value::Bool(true).to_bytes().expect("encode"), vec![TAG_BOOL, 1]);
    assert_eq!(Value::Bool(false).to_bytes().expect("encode"), vec![TAG_BOOL, 0]);
}

#[test]
fn decode_rejects_empty_buffer() {
    assert_eq!(
        Value::from_tagged_slice(&[]).expect_err("empty"),
        DataError::WrongLength { actual: 0 }
    );
}

#[test]
fn decode_rejects_unknown_tag() {
    assert_eq!(
        Value::from_tagged_slice(&[200, 1, 2]).expect_err("tag"),
        DataError::UnknownType { tag: 200 }
    );
}

#[test]
fn decode_rejects_bad_bool_byte() {
    assert_eq!(
        Value::from_tagged_slice(&[TAG_BOOL, 7]).expect_err("bool"),
        DataError::InvalidBool { byte: 7 }
    );
}

#[test]
fn decode_rejects_wrong_width() {
    // a u64 payload must be exactly eight bytes
    assert_eq!(
        Value::from_tagged_slice(&[TAG_U64, 1, 2, 3]).expect_err("width"),
        DataError::WrongLength { actual: 4 }
    );
    // a length prefix must match what follows exactly: never truncate
    assert_eq!(
        Value::from_tagged_slice(&[TAG_STR, 5, 0, 0, 0, b'h', b'i']).expect_err("length"),
        DataError::WrongLength { actual: 7 }
    );
}

#[test]
fn decode_rejects_invalid_utf8() {
    assert_eq!(
        Value::from_tagged_slice(&[TAG_STR, 2, 0, 0, 0, 0xff, 0xfe]).expect_err("utf8"),
        DataError::InvalidUtf8
    );
}
