//! The binary VDF format, as mathematics.
//!
//! A file is a list of fields closed by an end tag. A field is a tag byte
//! that tells the kind of its value, the key as text closed by a zero byte,
//! and the value: for an object its own fields and end tag, for a string
//! its text and a zero byte, for a number its little-endian bytes, for a
//! blob its length as four bytes and then its bytes. `encoded_value` says
//! which bytes stand for a value, `parse_fields` which value a buffer
//! stands for.

use crate::error::VdfError;
use crate::wire::{i32_bytes, i32_le, u32_bytes, u32_le, u64_bytes, u64_le};
use vstd::prelude::*;
use vstd::utf8::{
    char_is_scalar, decode_utf8, encode_scalar, encode_utf8, has_width_1_encoding,
    has_width_2_encoding, has_width_3_encoding, valid_utf8,
};

verus! {

/// The tag of a field whose value is an object.
pub const TAG_OBJECT: u8 = 0x00;

/// The tag of a field whose value is a string.
pub const TAG_STRING: u8 = 0x01;

/// The tag of a field whose value is a signed 32-bit number.
pub const TAG_INT32: u8 = 0x02;

/// The tag of a field whose value is an unsigned 64-bit number.
pub const TAG_UINT64: u8 = 0x07;

/// The tag that closes the fields of an object.
pub const TAG_END: u8 = 0x08;

/// The tag of a field whose value is a blob of bytes.
pub const TAG_BLOB: u8 = 0x09;

/// A VDF value: what a `VdfNode` stands for.
pub enum VdfValue {
    Object(Seq<VdfField>),
    String(Seq<char>),
    Int32(i32),
    UInt64(u64),
    Blob(Seq<u8>),
}

/// A field of an object: a key and its value.
pub struct VdfField {
    pub key: Seq<char>,
    pub value: VdfValue,
}

/// Whether `tag` tells the kind of a value.
pub open spec fn known_tag(tag: u8) -> bool {
    tag == TAG_OBJECT || tag == TAG_STRING || tag == TAG_INT32 || tag == TAG_UINT64 || tag
        == TAG_BLOB
}

/// The tag that tells the kind of `value`.
pub open spec fn tag_of(value: VdfValue) -> u8 {
    match value {
        VdfValue::Object(_) => TAG_OBJECT,
        VdfValue::String(_) => TAG_STRING,
        VdfValue::Int32(_) => TAG_INT32,
        VdfValue::UInt64(_) => TAG_UINT64,
        VdfValue::Blob(_) => TAG_BLOB,
    }
}

/// Text on the wire: its UTF-8 bytes and a zero byte.
pub open spec fn text_bytes(text: Seq<char>) -> Seq<u8> {
    encode_utf8(text).push(0u8)
}

/// The bytes that stand for `value`.
pub open spec fn encoded_value(value: VdfValue) -> Seq<u8>
    decreases value,
{
    match value {
        VdfValue::Object(fields) => encoded_fields(fields).push(TAG_END),
        VdfValue::String(text) => text_bytes(text),
        VdfValue::Int32(number) => i32_bytes(number),
        VdfValue::UInt64(number) => u64_bytes(number),
        VdfValue::Blob(bytes) => u32_bytes(bytes.len() as u32) + bytes,
    }
}

/// The bytes that stand for a field: tag, key, value.
pub open spec fn encoded_field(field: VdfField) -> Seq<u8>
    decreases field,
{
    seq![tag_of(field.value)] + text_bytes(field.key) + encoded_value(field.value)
}

/// The bytes that stand for a list of fields, without the end tag.
pub open spec fn encoded_fields(fields: Seq<VdfField>) -> Seq<u8>
    decreases fields,
{
    if fields.len() == 0 {
        Seq::empty()
    } else {
        encoded_fields(fields.drop_last()) + encoded_field(fields.last())
    }
}

/// Whether one of `fields` has the key `key`.
pub open spec fn has_key(fields: Seq<VdfField>, key: Seq<char>) -> bool {
    exists|i: int| 0 <= i < fields.len() && (#[trigger] fields[i]).key == key
}

/// The index of the first zero byte at or after `from`, or the length of
/// `bytes` where there is none.
pub open spec fn first_zero(bytes: Seq<u8>, from: int) -> int
    decreases bytes.len() - from,
{
    if from < 0 || from >= bytes.len() {
        bytes.len() as int
    } else if bytes[from] == 0 {
        from
    } else {
        first_zero(bytes, from + 1)
    }
}

/// Where `first_zero` points: at a zero byte before which there is none.
pub proof fn lemma_first_zero(bytes: Seq<u8>, from: int)
    requires
        0 <= from <= bytes.len(),
    ensures
        from <= first_zero(bytes, from) <= bytes.len(),
        first_zero(bytes, from) < bytes.len() ==> bytes[first_zero(bytes, from)] == 0,
        forall|k: int| from <= k < first_zero(bytes, from) ==> bytes[k] != 0,
    decreases bytes.len() - from,
{
    if from < bytes.len() && bytes[from] != 0 {
        lemma_first_zero(bytes, from + 1);
    }
}

/// The text at `pos` and the index after its zero byte.
pub open spec fn parse_text(bytes: Seq<u8>, pos: int) -> Result<(Seq<char>, int), VdfError> {
    let end = first_zero(bytes, pos);
    if pos < 0 || end >= bytes.len() {
        Err(VdfError::TruncatedInput)
    } else if !valid_utf8(bytes.subrange(pos, end)) {
        Err(VdfError::MalformedText)
    } else {
        Ok((decode_utf8(bytes.subrange(pos, end)), end + 1))
    }
}

/// The unsigned 32-bit number at `pos` and the index after it.
pub open spec fn parse_u32(bytes: Seq<u8>, pos: int) -> Result<(u32, int), VdfError> {
    if pos < 0 || pos + 4 > bytes.len() {
        Err(VdfError::TruncatedInput)
    } else {
        Ok((u32_le(bytes.subrange(pos, pos + 4)), pos + 4))
    }
}

/// The signed 32-bit number at `pos` and the index after it.
pub open spec fn parse_i32(bytes: Seq<u8>, pos: int) -> Result<(i32, int), VdfError> {
    if pos < 0 || pos + 4 > bytes.len() {
        Err(VdfError::TruncatedInput)
    } else {
        Ok((i32_le(bytes.subrange(pos, pos + 4)), pos + 4))
    }
}

/// The unsigned 64-bit number at `pos` and the index after it.
pub open spec fn parse_u64(bytes: Seq<u8>, pos: int) -> Result<(u64, int), VdfError> {
    if pos < 0 || pos + 8 > bytes.len() {
        Err(VdfError::TruncatedInput)
    } else {
        Ok((u64_le(bytes.subrange(pos, pos + 8)), pos + 8))
    }
}

/// The blob at `pos`, its length first, and the index after it.
pub open spec fn parse_blob(bytes: Seq<u8>, pos: int) -> Result<(Seq<u8>, int), VdfError> {
    match parse_u32(bytes, pos) {
        Err(error) => Err(error),
        Ok((length, start)) => if start + length > bytes.len() {
            Err(VdfError::TruncatedInput)
        } else {
            Ok((bytes.subrange(start, start + length), start + length))
        },
    }
}

/// The value of the kind `tag` at `pos` and the index after it.
pub open spec fn parse_value(bytes: Seq<u8>, tag: u8, pos: int) -> Result<(VdfValue, int), VdfError>
    decreases bytes.len() - pos, 1int,
{
    if tag == TAG_OBJECT {
        match parse_fields(bytes, pos, Seq::empty()) {
            Ok((fields, end)) => Ok((VdfValue::Object(fields), end)),
            Err(error) => Err(error),
        }
    } else if tag == TAG_STRING {
        match parse_text(bytes, pos) {
            Ok((text, end)) => Ok((VdfValue::String(text), end)),
            Err(error) => Err(error),
        }
    } else if tag == TAG_INT32 {
        match parse_i32(bytes, pos) {
            Ok((number, end)) => Ok((VdfValue::Int32(number), end)),
            Err(error) => Err(error),
        }
    } else if tag == TAG_UINT64 {
        match parse_u64(bytes, pos) {
            Ok((number, end)) => Ok((VdfValue::UInt64(number), end)),
            Err(error) => Err(error),
        }
    } else if tag == TAG_BLOB {
        match parse_blob(bytes, pos) {
            Ok((blob, end)) => Ok((VdfValue::Blob(blob), end)),
            Err(error) => Err(error),
        }
    } else {
        Err(VdfError::UnknownTypeTag)
    }
}

/// The fields from `pos` up to the end tag that closes them, put behind
/// the fields `seen` that were read before them, and the index after that
/// end tag. The first thing that is wrong decides the error: the buffer
/// ends, the tag is unknown, the key is not text, the key was seen before,
/// the value does not parse.
///
/// A value that is read takes at least one byte and ends within the buffer
/// (`roundtrip::lemma_parse_value_encodes` shows it), so the test of `end`
/// never fails: it is there to show that the definition terminates.
pub open spec fn parse_fields(bytes: Seq<u8>, pos: int, seen: Seq<VdfField>) -> Result<
    (Seq<VdfField>, int),
    VdfError,
>
    decreases bytes.len() - pos, 0int,
{
    if pos < 0 || pos >= bytes.len() {
        Err(VdfError::TruncatedInput)
    } else if bytes[pos] == TAG_END {
        Ok((seen, pos + 1))
    } else if !known_tag(bytes[pos]) {
        Err(VdfError::UnknownTypeTag)
    } else {
        match parse_text(bytes, pos + 1) {
            Err(error) => Err(error),
            Ok((key, start)) => if has_key(seen, key) {
                Err(VdfError::DuplicateKey)
            } else {
                proof {
                    lemma_first_zero(bytes, pos + 1);
                }
                match parse_value(bytes, bytes[pos], start) {
                    Err(error) => Err(error),
                    Ok((value, end)) => if end <= pos || end > bytes.len() {
                        Err(VdfError::TruncatedInput)
                    } else {
                        parse_fields(bytes, end, seen.push(VdfField { key, value }))
                    },
                }
            },
        }
    }
}

/// The object that `bytes` stands for: the fields from the start of the
/// buffer up to the end tag that closes them. What follows that end tag is
/// not looked at.
pub open spec fn decoded(bytes: Seq<u8>) -> Result<VdfValue, VdfError> {
    match parse_fields(bytes, 0, Seq::empty()) {
        Ok((fields, _)) => Ok(VdfValue::Object(fields)),
        Err(error) => Err(error),
    }
}

/// How many bytes of `bytes` stand for the object `decoded(bytes)`.
pub open spec fn decoded_length(bytes: Seq<u8>) -> int
    recommends
        decoded(bytes) is Ok,
{
    parse_fields(bytes, 0, Seq::empty())->Ok_0.1
}

/// Whether `text` can be written: whether its UTF-8 bytes hold no zero byte.
pub open spec fn writable_text(text: Seq<char>) -> bool {
    forall|i: int| 0 <= i < encode_utf8(text).len() ==> #[trigger] encode_utf8(text)[i] != 0
}

/// The UTF-8 bytes of a character hold a zero byte only where the character
/// is the zero character.
pub proof fn lemma_scalar_bytes(c: char)
    ensures
        encode_scalar(c as u32).len() >= 1,
        forall|k: int|
            0 <= k < encode_scalar(c as u32).len() ==> (#[trigger] encode_scalar(c as u32)[k] == 0
                <==> c == '\0'),
{
    let s = c as u32;
    char_is_scalar(c);
    assert(s <= 0x7F ==> (((s & 0x7F) as u8 == 0) <==> s == 0)) by (bit_vector);
    assert((0xC0u8 | ((s >> 6) & 0x1F) as u8) != 0) by (bit_vector);
    assert((0xE0u8 | ((s >> 12) & 0x0F) as u8) != 0) by (bit_vector);
    assert((0xF0u8 | ((s >> 18) & 0x7) as u8) != 0) by (bit_vector);
    assert((0x80u8 | (s & 0x3F) as u8) != 0) by (bit_vector);
    assert((0x80u8 | ((s >> 6) & 0x3F) as u8) != 0) by (bit_vector);
    assert((0x80u8 | ((s >> 12) & 0x3F) as u8) != 0) by (bit_vector);
    if has_width_1_encoding(s) {
    } else if has_width_2_encoding(s) {
    } else if has_width_3_encoding(s) {
    } else {
    }
}

/// Text can be written where it holds no zero character, and only there.
pub proof fn lemma_writable_text(text: Seq<char>)
    ensures
        writable_text(text) <==> forall|i: int| 0 <= i < text.len() ==> text[i] != '\0',
    decreases text.len(),
{
    if text.len() > 0 {
        let head = encode_scalar(text[0] as u32);
        let rest = text.drop_first();
        lemma_scalar_bytes(text[0]);
        lemma_writable_text(rest);
        assert(encode_utf8(text) == head + encode_utf8(rest));
        if writable_text(text) {
            assert(encode_utf8(text)[0] == head[0]);
            assert forall|k: int| 0 <= k < encode_utf8(rest).len() implies #[trigger] encode_utf8(
                rest,
            )[k] != 0 by {
                assert(encode_utf8(text)[head.len() + k] == encode_utf8(rest)[k]);
            }
            assert forall|i: int| 0 <= i < text.len() implies text[i] != '\0' by {
                if i > 0 {
                    assert(rest[i - 1] == text[i]);
                }
            }
        }
        if forall|i: int| 0 <= i < text.len() ==> text[i] != '\0' {
            assert forall|i: int| 0 <= i < rest.len() implies rest[i] != '\0' by {
                assert(rest[i] == text[i + 1]);
            }
            assert forall|k: int| 0 <= k < encode_utf8(text).len() implies #[trigger] encode_utf8(
                text,
            )[k] != 0 by {
                if k < head.len() {
                    assert(encode_utf8(text)[k] == head[k]);
                } else {
                    assert(encode_utf8(text)[k] == encode_utf8(rest)[k - head.len()]);
                }
            }
        }
    }
}

/// No two of `fields` share a key.
pub open spec fn distinct_keys(fields: Seq<VdfField>) -> bool {
    forall|i: int, j: int|
        #![trigger fields[i], fields[j]]
        0 <= i < j < fields.len() ==> fields[i].key != fields[j].key
}

/// Whether `value` can be written and read back: keys and strings hold no
/// zero byte, no object has a key twice, and the length of a blob fits in
/// four bytes.
pub open spec fn well_formed(value: VdfValue) -> bool
    decreases value,
{
    match value {
        VdfValue::Object(fields) => {
            &&& distinct_keys(fields)
            &&& forall|i: int|
                0 <= i < fields.len() ==> writable_text((#[trigger] fields[i]).key) && well_formed(
                    fields[i].value,
                )
        },
        VdfValue::String(text) => writable_text(text),
        VdfValue::Int32(_) => true,
        VdfValue::UInt64(_) => true,
        VdfValue::Blob(bytes) => bytes.len() <= u32::MAX,
    }
}

} // verus!
