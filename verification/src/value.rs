//! Typed values and their tagged wire format.
//!
//! A value is encoded as one leading tag byte naming its variant, followed by
//! a fixed-width or length-prefixed payload.  Decoding validates the tag, the
//! payload length and, for text, UTF-8; each failure is a distinguished
//! [`DataError`], never a panic.  Encoding fails only when a length-prefixed
//! payload exceeds the representable size bound, and never truncates.

use vstd::bytes::{
    spec_u128_to_le_bytes, spec_u32_to_le_bytes, spec_u64_to_le_bytes, u128_from_le_bytes,
    u128_to_le_bytes, u32_from_le_bytes, u32_to_le_bytes, u64_from_le_bytes, u64_to_le_bytes,
    lemma_auto_spec_u128_to_from_le_bytes, lemma_auto_spec_u32_to_from_le_bytes,
    lemma_auto_spec_u64_to_from_le_bytes, spec_u128_from_le_bytes, spec_u32_from_le_bytes,
    spec_u64_from_le_bytes,
};
use vstd::prelude::*;
use vstd::slice::{slice_subrange, slice_to_vec};
use vstd::string::StringSliceAdditionalSpecFns;
use vstd::utf8::{decode_utf8, encode_utf8, encode_utf8_decode_utf8, encode_utf8_valid_utf8, valid_utf8};

use crate::error::DataError;

verus! {

pub const TAG_BOOL: u8 = 1;

pub const TAG_I64: u8 = 2;

pub const TAG_U64: u8 = 3;

pub const TAG_F64: u8 = 4;

pub const TAG_INSTANT: u8 = 5;

pub const TAG_UUID: u8 = 6;

pub const TAG_STR: u8 = 7;

pub const TAG_JSON: u8 = 8;

pub const TAG_BLOB: u8 = 9;

/// Longest representable payload of a length-prefixed variant.
pub const MAX_PAYLOAD_LEN: u32 = 0xffff_ffff;

/// A tagged value: scalar, text, blob, identifier, instant or document.
/// Immutable once constructed; inside a duplicate-sorted table values are
/// ordered by the bytes of their encoding.
#[derive(Debug, PartialEq, Eq, Clone)]
pub enum Value {
    /// A boolean.
    Bool(bool),
    /// A signed 64-bit integer.
    I64(i64),
    /// An unsigned 64-bit integer.
    U64(u64),
    /// A double-precision floating-point number, carried as its IEEE-754 bit
    /// pattern: the store orders and compares encodings, never arithmetic.
    F64(u64),
    /// A timestamp instant, in integer ticks.
    Instant(i64),
    /// A 128-bit identifier.
    Uuid(u128),
    /// UTF-8 text.
    Str(String),
    /// A structured document, carried as UTF-8 text.
    Json(String),
    /// An opaque byte string.
    Blob(Vec<u8>),
}

/// The mathematical image of a [`Value`].
pub enum ValueView {
    Bool(bool),
    I64(i64),
    U64(u64),
    F64(u64),
    Instant(i64),
    Uuid(u128),
    Str(Seq<char>),
    Json(Seq<char>),
    Blob(Seq<u8>),
}

impl View for Value {
    type V = ValueView;

    open spec fn view(&self) -> ValueView {
        match self {
            Value::Bool(b) => ValueView::Bool(*b),
            Value::I64(x) => ValueView::I64(*x),
            Value::U64(x) => ValueView::U64(*x),
            Value::F64(bits) => ValueView::F64(*bits),
            Value::Instant(x) => ValueView::Instant(*x),
            Value::Uuid(x) => ValueView::Uuid(*x),
            Value::Str(s) => ValueView::Str(s@),
            Value::Json(s) => ValueView::Json(s@),
            Value::Blob(b) => ValueView::Blob(b@),
        }
    }
}

/// A length-prefixed payload: four little-endian length bytes, then the
/// payload itself.  Fails only on a payload above the size bound.
pub open spec fn spec_encode_payload(tag: u8, payload: Seq<u8>) -> Result<Seq<u8>, DataError> {
    if payload.len() <= MAX_PAYLOAD_LEN {
        Ok(seq![tag] + spec_u32_to_le_bytes(payload.len() as u32) + payload)
    } else {
        Err(DataError::TooLarge { len: payload.len() as usize })
    }
}

/// What encoding a value yields: the tagged byte string, or the error.
pub open spec fn spec_encode_value(v: ValueView) -> Result<Seq<u8>, DataError> {
    match v {
        ValueView::Bool(b) => Ok(seq![TAG_BOOL, if b { 1u8 } else { 0u8 }]),
        ValueView::I64(x) => Ok(seq![TAG_I64] + spec_u64_to_le_bytes(x as u64)),
        ValueView::U64(x) => Ok(seq![TAG_U64] + spec_u64_to_le_bytes(x)),
        ValueView::F64(bits) => Ok(seq![TAG_F64] + spec_u64_to_le_bytes(bits)),
        ValueView::Instant(x) => Ok(seq![TAG_INSTANT] + spec_u64_to_le_bytes(x as u64)),
        ValueView::Uuid(x) => Ok(seq![TAG_UUID] + spec_u128_to_le_bytes(x)),
        ValueView::Str(s) => spec_encode_payload(TAG_STR, encode_utf8(s)),
        ValueView::Json(s) => spec_encode_payload(TAG_JSON, encode_utf8(s)),
        ValueView::Blob(b) => spec_encode_payload(TAG_BLOB, b),
    }
}

/// The payload of a length-prefixed buffer `p` (everything after the tag),
/// provided its length prefix matches what follows exactly.
pub open spec fn spec_decode_payload(p: Seq<u8>) -> Option<Seq<u8>> {
    if p.len() < 4 {
        None
    } else if p.len() - 4 == spec_u32_from_le_bytes(p.take(4)) {
        Some(p.skip(4))
    } else {
        None
    }
}

/// What decoding a byte string yields: the value, or the distinguished error.
pub open spec fn spec_decode_value(b: Seq<u8>) -> Result<ValueView, DataError> {
    if b.len() == 0 {
        Err(DataError::WrongLength { actual: 0 })
    } else {
        let tag = b[0];
        let p = b.drop_first();
        if tag == TAG_BOOL {
            if p.len() != 1 {
                Err(DataError::WrongLength { actual: b.len() as usize })
            } else if p[0] == 1 {
                Ok(ValueView::Bool(true))
            } else if p[0] == 0 {
                Ok(ValueView::Bool(false))
            } else {
                Err(DataError::InvalidBool { byte: p[0] })
            }
        } else if tag == TAG_I64 {
            if p.len() == 8 {
                Ok(ValueView::I64(spec_u64_from_le_bytes(p) as i64))
            } else {
                Err(DataError::WrongLength { actual: b.len() as usize })
            }
        } else if tag == TAG_U64 {
            if p.len() == 8 {
                Ok(ValueView::U64(spec_u64_from_le_bytes(p)))
            } else {
                Err(DataError::WrongLength { actual: b.len() as usize })
            }
        } else if tag == TAG_F64 {
            if p.len() == 8 {
                Ok(ValueView::F64(spec_u64_from_le_bytes(p)))
            } else {
                Err(DataError::WrongLength { actual: b.len() as usize })
            }
        } else if tag == TAG_INSTANT {
            if p.len() == 8 {
                Ok(ValueView::Instant(spec_u64_from_le_bytes(p) as i64))
            } else {
                Err(DataError::WrongLength { actual: b.len() as usize })
            }
        } else if tag == TAG_UUID {
            if p.len() == 16 {
                Ok(ValueView::Uuid(spec_u128_from_le_bytes(p)))
            } else {
                Err(DataError::WrongLength { actual: b.len() as usize })
            }
        } else if tag == TAG_STR {
            match spec_decode_payload(p) {
                Some(payload) => if valid_utf8(payload) {
                    Ok(ValueView::Str(decode_utf8(payload)))
                } else {
                    Err(DataError::InvalidUtf8)
                },
                None => Err(DataError::WrongLength { actual: b.len() as usize }),
            }
        } else if tag == TAG_JSON {
            match spec_decode_payload(p) {
                Some(payload) => if valid_utf8(payload) {
                    Ok(ValueView::Json(decode_utf8(payload)))
                } else {
                    Err(DataError::InvalidUtf8)
                },
                None => Err(DataError::WrongLength { actual: b.len() as usize }),
            }
        } else if tag == TAG_BLOB {
            match spec_decode_payload(p) {
                Some(payload) => Ok(ValueView::Blob(payload)),
                None => Err(DataError::WrongLength { actual: b.len() as usize }),
            }
        } else {
            Err(DataError::UnknownType { tag })
        }
    }
}

/// Decoding inverts encoding: every value that encodes at all decodes back to
/// itself, whatever its variant.
pub proof fn lemma_value_codec_round_trip(v: ValueView)
    requires
        spec_encode_value(v) is Ok,
    ensures
        spec_decode_value(spec_encode_value(v).unwrap()) == Ok::<ValueView, DataError>(v),
{
    lemma_auto_spec_u32_to_from_le_bytes();
    lemma_auto_spec_u64_to_from_le_bytes();
    lemma_auto_spec_u128_to_from_le_bytes();
    let b = spec_encode_value(v).unwrap();
    match v {
        ValueView::Bool(x) => {
            assert(b.drop_first() =~= seq![if x { 1u8 } else { 0u8 }]);
        },
        ValueView::I64(x) => {
            assert(b.drop_first() =~= spec_u64_to_le_bytes(x as u64));
            assert(spec_u64_from_le_bytes(spec_u64_to_le_bytes(x as u64)) == x as u64);
            assert(((x as u64) as i64) == x) by (bit_vector);
        },
        ValueView::U64(x) => {
            assert(b.drop_first() =~= spec_u64_to_le_bytes(x));
        },
        ValueView::F64(bits) => {
            assert(b.drop_first() =~= spec_u64_to_le_bytes(bits));
        },
        ValueView::Instant(x) => {
            assert(b.drop_first() =~= spec_u64_to_le_bytes(x as u64));
            assert(((x as u64) as i64) == x) by (bit_vector);
        },
        ValueView::Uuid(x) => {
            assert(b.drop_first() =~= spec_u128_to_le_bytes(x));
        },
        ValueView::Str(s) => {
            lemma_payload_round_trip(TAG_STR, encode_utf8(s));
            encode_utf8_valid_utf8(s);
            encode_utf8_decode_utf8(s);
        },
        ValueView::Json(s) => {
            lemma_payload_round_trip(TAG_JSON, encode_utf8(s));
            encode_utf8_valid_utf8(s);
            encode_utf8_decode_utf8(s);
        },
        ValueView::Blob(payload) => {
            lemma_payload_round_trip(TAG_BLOB, payload);
        },
    }
}

/// A length-prefixed payload parses back to itself.
proof fn lemma_payload_round_trip(tag: u8, payload: Seq<u8>)
    requires
        payload.len() <= MAX_PAYLOAD_LEN,
    ensures
        ({
            let b = spec_encode_payload(tag, payload).unwrap();
            b.len() > 0 && b[0] == tag && spec_decode_payload(b.drop_first()) == Some(payload)
        }),
{
    lemma_auto_spec_u32_to_from_le_bytes();
    let b = spec_encode_payload(tag, payload).unwrap();
    let p = b.drop_first();
    assert(p =~= spec_u32_to_le_bytes(payload.len() as u32) + payload);
    assert(p.take(4) =~= spec_u32_to_le_bytes(payload.len() as u32));
    assert(p.skip(4) =~= payload);
    assert(spec_u32_from_le_bytes(p.take(4)) == payload.len() as u32);
}

impl Value {
    /// Encode this value into its tagged byte string.  Fails only when a
    /// length-prefixed payload exceeds the size bound; never truncates.
    pub fn to_bytes(&self) -> (r: Result<Vec<u8>, DataError>)
        ensures
            match r {
                Ok(bytes) => spec_encode_value(self@) == Ok::<Seq<u8>, DataError>(bytes@),
                Err(e) => spec_encode_value(self@) == Err::<Seq<u8>, DataError>(e),
            },
    {
        match self {
            Value::Bool(x) => {
                let mut out: Vec<u8> = Vec::new();
                out.push(TAG_BOOL);
                out.push(if *x {
                    1
                } else {
                    0
                });
                proof {
                    assert(out@ =~= seq![TAG_BOOL, if *x { 1u8 } else { 0u8 }]);
                }
                Ok(out)
            },
            Value::I64(x) => {
                let bits: u64 = *x as u64;
                Ok(tag_and_eight(TAG_I64, bits))
            },
            Value::U64(x) => Ok(tag_and_eight(TAG_U64, *x)),
            Value::F64(bits) => Ok(tag_and_eight(TAG_F64, *bits)),
            Value::Instant(x) => {
                let bits: u64 = *x as u64;
                Ok(tag_and_eight(TAG_INSTANT, bits))
            },
            Value::Uuid(x) => {
                let mut out: Vec<u8> = Vec::new();
                out.push(TAG_UUID);
                let mut p = u128_to_le_bytes(*x);
                out.append(&mut p);
                proof {
                    assert(out@ =~= seq![TAG_UUID] + spec_u128_to_le_bytes(*x));
                }
                Ok(out)
            },
            Value::Str(s) => encode_payload(TAG_STR, s.as_str().as_bytes()),
            Value::Json(s) => encode_payload(TAG_JSON, s.as_str().as_bytes()),
            Value::Blob(b) => encode_payload(TAG_BLOB, b.as_slice()),
        }
    }

    /// Decode a tagged byte string, validating the tag, the length and, for
    /// text, UTF-8.
    pub fn from_tagged_slice(b: &[u8]) -> (r: Result<Value, DataError>)
        ensures
            match r {
                Ok(v) => spec_decode_value(b@) == Ok::<ValueView, DataError>(v@),
                Err(e) => spec_decode_value(b@) == Err::<ValueView, DataError>(e),
            },
    {
        let n: usize = b.len();
        if n == 0 {
            return Err(DataError::WrongLength { actual: 0 });
        }
        let tag = b[0];
        if tag == TAG_BOOL {
            if n != 2 {
                proof {
                    assert(b@.drop_first().len() != 1);
                }
                return Err(DataError::WrongLength { actual: n });
            }
            let x = b[1];
            proof {
                assert(b@.drop_first()[0] == b@[1]);
            }
            if x == 1 {
                Ok(Value::Bool(true))
            } else if x == 0 {
                Ok(Value::Bool(false))
            } else {
                Err(DataError::InvalidBool { byte: x })
            }
        } else if tag == TAG_I64 {
            if n != 9 {
                return Err(DataError::WrongLength { actual: n });
            }
            let p = slice_subrange(b, 1, 9);
            proof {
                assert(p@ =~= b@.drop_first());
            }
            let y = u64_from_le_bytes(p);
            let x: i64 = y as i64;
            proof {
                assert(y as i64 == spec_u64_from_le_bytes(b@.drop_first()) as i64);
            }
            Ok(Value::I64(x))
        } else if tag == TAG_U64 {
            if n != 9 {
                return Err(DataError::WrongLength { actual: n });
            }
            let p = slice_subrange(b, 1, 9);
            proof {
                assert(p@ =~= b@.drop_first());
            }
            Ok(Value::U64(u64_from_le_bytes(p)))
        } else if tag == TAG_F64 {
            if n != 9 {
                return Err(DataError::WrongLength { actual: n });
            }
            let p = slice_subrange(b, 1, 9);
            proof {
                assert(p@ =~= b@.drop_first());
            }
            Ok(Value::F64(u64_from_le_bytes(p)))
        } else if tag == TAG_INSTANT {
            if n != 9 {
                return Err(DataError::WrongLength { actual: n });
            }
            let p = slice_subrange(b, 1, 9);
            proof {
                assert(p@ =~= b@.drop_first());
            }
            let y = u64_from_le_bytes(p);
            Ok(Value::Instant(y as i64))
        } else if tag == TAG_UUID {
            if n != 17 {
                return Err(DataError::WrongLength { actual: n });
            }
            let p = slice_subrange(b, 1, 17);
            proof {
                assert(p@ =~= b@.drop_first());
            }
            Ok(Value::Uuid(u128_from_le_bytes(p)))
        } else if tag == TAG_STR {
            match decode_payload(b)? {
                payload => {
                    match bytes_as_str(payload) {
                        Some(s) => Ok(Value::Str(s.to_owned())),
                        None => Err(DataError::InvalidUtf8),
                    }
                },
            }
        } else if tag == TAG_JSON {
            match decode_payload(b)? {
                payload => {
                    match bytes_as_str(payload) {
                        Some(s) => Ok(Value::Json(s.to_owned())),
                        None => Err(DataError::InvalidUtf8),
                    }
                },
            }
        } else if tag == TAG_BLOB {
            let payload = decode_payload(b)?;
            Ok(Value::Blob(slice_to_vec(payload)))
        } else {
            Err(DataError::UnknownType { tag })
        }
    }
}

/// One tag byte followed by eight little-endian payload bytes.
fn tag_and_eight(tag: u8, bits: u64) -> (r: Vec<u8>)
    ensures
        r@ == seq![tag] + spec_u64_to_le_bytes(bits),
{
    let mut out: Vec<u8> = Vec::new();
    out.push(tag);
    let mut p = u64_to_le_bytes(bits);
    out.append(&mut p);
    proof {
        assert(out@ =~= seq![tag] + spec_u64_to_le_bytes(bits));
    }
    out
}

/// One tag byte, four little-endian length bytes, then the payload.
fn encode_payload(tag: u8, payload: &[u8]) -> (r: Result<Vec<u8>, DataError>)
    ensures
        match r {
            Ok(bytes) => spec_encode_payload(tag, payload@) == Ok::<Seq<u8>, DataError>(bytes@),
            Err(e) => spec_encode_payload(tag, payload@) == Err::<Seq<u8>, DataError>(e),
        },
{
    let len: usize = payload.len();
    if len > MAX_PAYLOAD_LEN as usize {
        return Err(DataError::TooLarge { len });
    }
    let mut out: Vec<u8> = Vec::new();
    out.push(tag);
    let mut prefix = u32_to_le_bytes(len as u32);
    out.append(&mut prefix);
    let mut body = slice_to_vec(payload);
    out.append(&mut body);
    proof {
        assert(out@ =~= seq![tag] + spec_u32_to_le_bytes(payload@.len() as u32) + payload@);
    }
    Ok(out)
}

/// The length-checked payload of a tagged, length-prefixed buffer.
fn decode_payload(b: &[u8]) -> (r: Result<&[u8], DataError>)
    requires
        b@.len() > 0,
    ensures
        match r {
            Ok(payload) => spec_decode_payload(b@.drop_first()) == Some(payload@),
            Err(e) => spec_decode_payload(b@.drop_first()) is None && e == (
            DataError::WrongLength { actual: b@.len() as usize }),
        },
{
    let n: usize = b.len();
    if n < 5 {
        return Err(DataError::WrongLength { actual: n });
    }
    let prefix = slice_subrange(b, 1, 5);
    proof {
        assert(prefix@ =~= b@.drop_first().take(4));
    }
    let len = u32_from_le_bytes(prefix);
    if n - 5 != len as usize {
        return Err(DataError::WrongLength { actual: n });
    }
    let payload = slice_subrange(b, 5, n);
    proof {
        assert(payload@ =~= b@.drop_first().skip(4));
    }
    Ok(payload)
}

/// Relies on `core::str::from_utf8`: it returns `Ok` exactly on valid UTF-8
/// input, and the string slice it returns views those very bytes as text.
#[verifier::external_body]
fn bytes_as_str(b: &[u8]) -> (r: Option<&str>)
    ensures
        r is Some <==> valid_utf8(b@),
        r is Some ==> r.unwrap()@ == decode_utf8(b@),
{
    core::str::from_utf8(b).ok()
}

} // verus!
