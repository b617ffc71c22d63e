//! Reading and writing undo each other.
//!
//! What is read from a buffer is written back as the bytes it was read
//! from, and what is written is read back as the value that was written.

use crate::error::VdfError;
use crate::format::{
    decoded, decoded_length, encoded_field, encoded_fields, encoded_value, first_zero, has_key,
    lemma_first_zero, parse_fields, parse_text, parse_value, tag_of, text_bytes, well_formed,
    writable_text, VdfField, VdfValue, TAG_BLOB, TAG_END, TAG_INT32, TAG_OBJECT, TAG_STRING,
    TAG_UINT64,
};
use crate::wire::{
    lemma_i32_bits_round_trip, lemma_u32_round_trip, lemma_u64_round_trip, u32_bytes, u32_le,
};
use vstd::prelude::*;
use vstd::utf8::{
    decode_utf8_encode_utf8, encode_utf8, encode_utf8_decode_utf8, encode_utf8_valid_utf8,
};

verus! {

/// The bytes of a list of fields with one more field at its end.
pub proof fn lemma_encoded_fields_push(fields: Seq<VdfField>, field: VdfField)
    ensures
        encoded_fields(fields.push(field)) == encoded_fields(fields) + encoded_field(field),
{
    assert(fields.push(field).drop_last() == fields);
    assert(fields.push(field).last() == field);
}

/// The bytes of a list of fields start with the bytes of its first field.
pub proof fn lemma_encoded_fields_front(fields: Seq<VdfField>)
    requires
        fields.len() > 0,
    ensures
        encoded_fields(fields) == encoded_field(fields[0]) + encoded_fields(fields.drop_first()),
    decreases fields.len(),
{
    if fields.len() == 1 {
        assert(fields.drop_last() =~= Seq::<VdfField>::empty());
        assert(fields.drop_first() =~= Seq::<VdfField>::empty());
        assert(encoded_fields(fields) =~= encoded_field(fields[0]) + encoded_fields(
            fields.drop_first(),
        ));
    } else {
        let front = fields.drop_last();
        let back = fields.drop_first();
        lemma_encoded_fields_front(front);
        assert(front[0] == fields[0]);
        assert(front.drop_first() =~= back.drop_last());
        assert(back.last() == fields.last());
        assert(encoded_fields(fields) =~= encoded_field(fields[0]) + encoded_fields(back));
    }
}

/// Text that was read is written back as the bytes it was read from, and
/// it can be written.
pub proof fn lemma_parse_text_encodes(bytes: Seq<u8>, pos: int)
    requires
        0 <= pos,
        parse_text(bytes, pos) is Ok,
    ensures
        pos < parse_text(bytes, pos)->Ok_0.1 <= bytes.len(),
        text_bytes(parse_text(bytes, pos)->Ok_0.0) == bytes.subrange(
            pos,
            parse_text(bytes, pos)->Ok_0.1,
        ),
        writable_text(parse_text(bytes, pos)->Ok_0.0),
{
    let end = first_zero(bytes, pos);
    if pos <= bytes.len() {
        lemma_first_zero(bytes, pos);
    }
    let part = bytes.subrange(pos, end);
    decode_utf8_encode_utf8(part);
    assert(part.push(0u8) =~= bytes.subrange(pos, end + 1));
}

/// A value that was read is written back as the bytes it was read from.
pub proof fn lemma_parse_value_encodes(bytes: Seq<u8>, tag: u8, pos: int)
    requires
        0 <= pos,
        parse_value(bytes, tag, pos) is Ok,
    ensures
        pos < parse_value(bytes, tag, pos)->Ok_0.1 <= bytes.len(),
        tag_of(parse_value(bytes, tag, pos)->Ok_0.0) == tag,
        encoded_value(parse_value(bytes, tag, pos)->Ok_0.0) == bytes.subrange(
            pos,
            parse_value(bytes, tag, pos)->Ok_0.1,
        ),
        well_formed(parse_value(bytes, tag, pos)->Ok_0.0),
    decreases bytes.len() - pos, 1int,
{
    lemma_u32_round_trip();
    lemma_u64_round_trip();
    lemma_i32_bits_round_trip();
    if tag == TAG_OBJECT {
        assert(encoded_fields(Seq::<VdfField>::empty()) =~= bytes.subrange(pos, pos));
        lemma_parse_fields_encodes(bytes, pos, pos, Seq::empty());
    } else if tag == TAG_STRING {
        lemma_parse_text_encodes(bytes, pos);
    } else if tag == TAG_INT32 {
    } else if tag == TAG_UINT64 {
    } else if tag == TAG_BLOB {
        let length = u32_le(bytes.subrange(pos, pos + 4));
        let blob = bytes.subrange(pos + 4, pos + 4 + length);
        assert(blob.len() as u32 == length);
        assert(bytes.subrange(pos, pos + 4) + blob =~= bytes.subrange(pos, pos + 4 + length));
    }
}

/// Fields that were read are written back as the bytes they were read
/// from: where the fields `seen` stand for the bytes from `start` to
/// `pos`, the fields read from `pos` on, behind `seen`, stand with their
/// end tag for the bytes from `start` to where reading ended.
pub proof fn lemma_parse_fields_encodes(bytes: Seq<u8>, start: int, pos: int, seen: Seq<VdfField>)
    requires
        0 <= start <= pos,
        encoded_fields(seen) == bytes.subrange(start, pos),
        well_formed(VdfValue::Object(seen)),
        parse_fields(bytes, pos, seen) is Ok,
    ensures
        pos < parse_fields(bytes, pos, seen)->Ok_0.1 <= bytes.len(),
        encoded_fields(parse_fields(bytes, pos, seen)->Ok_0.0).push(TAG_END) == bytes.subrange(
            start,
            parse_fields(bytes, pos, seen)->Ok_0.1,
        ),
        well_formed(VdfValue::Object(parse_fields(bytes, pos, seen)->Ok_0.0)),
    decreases bytes.len() - pos, 0int,
{
    if bytes[pos] == TAG_END {
        assert(bytes.subrange(start, pos).push(TAG_END) =~= bytes.subrange(start, pos + 1));
    } else {
        let tag = bytes[pos];
        let (key, key_end) = parse_text(bytes, pos + 1)->Ok_0;
        lemma_parse_text_encodes(bytes, pos + 1);
        let (value, end) = parse_value(bytes, tag, key_end)->Ok_0;
        lemma_parse_value_encodes(bytes, tag, key_end);
        let field = VdfField { key, value };
        let next = seen.push(field);
        lemma_encoded_fields_push(seen, field);
        assert(encoded_field(field) =~= bytes.subrange(pos, end)) by {
            assert(seq![tag] =~= bytes.subrange(pos, pos + 1));
            assert(bytes.subrange(pos, pos + 1) + bytes.subrange(pos + 1, key_end)
                + bytes.subrange(key_end, end) =~= bytes.subrange(pos, end));
        }
        assert(encoded_fields(next) =~= bytes.subrange(start, end));
        assert(well_formed(VdfValue::Object(next))) by {
            assert forall|i: int, j: int| 0 <= i < j < next.len() implies next[i].key
                != next[j].key by {
                if j == seen.len() {
                    assert(seen[i].key != key);
                }
            }
            assert forall|i: int| 0 <= i < next.len() implies writable_text(
                (#[trigger] next[i]).key,
            ) && well_formed(next[i].value) by {
                if i < seen.len() {
                    assert(next[i] == seen[i]);
                }
            }
        }
        lemma_parse_fields_encodes(bytes, start, end, next);
    }
}

/// Whether `bytes` holds one object and nothing else: whether it can be
/// read, and reading takes all of it.
pub open spec fn holds_one_object(bytes: Seq<u8>) -> bool {
    decoded(bytes) is Ok && decoded_length(bytes) == bytes.len()
}

/// What is read from a buffer is written back as the bytes that were
/// read, and it can be written and read again.
pub proof fn lemma_decode_then_encode_prefix(bytes: Seq<u8>)
    requires
        decoded(bytes) is Ok,
    ensures
        0 < decoded_length(bytes) <= bytes.len(),
        encoded_value(decoded(bytes)->Ok_0) == bytes.subrange(0, decoded_length(bytes)),
        well_formed(decoded(bytes)->Ok_0),
{
    assert(encoded_fields(Seq::<VdfField>::empty()) =~= bytes.subrange(0, 0));
    lemma_parse_fields_encodes(bytes, 0, 0, Seq::empty());
}

/// Decoding and then encoding gives the buffer back: for every buffer that
/// holds one object and nothing else, the bytes written for the object
/// that was read are the buffer.
pub proof fn lemma_decode_then_encode(bytes: Seq<u8>)
    requires
        holds_one_object(bytes),
    ensures
        encoded_value(decoded(bytes)->Ok_0) == bytes,
{
    lemma_decode_then_encode_prefix(bytes);
    assert(bytes.subrange(0, bytes.len() as int) =~= bytes);
}


/// Where no byte from `from` up to `zero` is zero and the byte at `zero`
/// is, `first_zero` points at `zero`.
pub proof fn lemma_first_zero_is(bytes: Seq<u8>, from: int, zero: int)
    requires
        0 <= from <= zero < bytes.len(),
        bytes[zero] == 0,
        forall|k: int| from <= k < zero ==> bytes[k] != 0,
    ensures
        first_zero(bytes, from) == zero,
    decreases zero - from,
{
    if from < zero {
        lemma_first_zero_is(bytes, from + 1, zero);
    }
}

/// Where a stretch of `bytes` holds `left` and then `right`, it holds
/// `left` in its first part and `right` in the rest.
pub proof fn lemma_stretch_splits(bytes: Seq<u8>, at: int, left: Seq<u8>, right: Seq<u8>)
    requires
        0 <= at,
        at + left.len() + right.len() <= bytes.len(),
        bytes.subrange(at, at + left.len() + right.len()) == left + right,
    ensures
        bytes.subrange(at, at + left.len()) == left,
        bytes.subrange(at + left.len(), at + left.len() + right.len()) == right,
{
    let whole = bytes.subrange(at, at + left.len() + right.len());
    assert(bytes.subrange(at, at + left.len()) =~= left) by {
        assert forall|k: int| 0 <= k < left.len() implies bytes[at + k] == left[k] by {
            assert(whole[k] == (left + right)[k]);
        }
    }
    assert(bytes.subrange(at + left.len(), at + left.len() + right.len()) =~= right) by {
        assert forall|k: int| 0 <= k < right.len() implies bytes[at + left.len() + k]
            == right[k] by {
            assert(whole[left.len() + k] == (left + right)[left.len() + k]);
        }
    }
}

/// Text that was written is read back.
pub proof fn lemma_parse_written_text(bytes: Seq<u8>, pos: int, text: Seq<char>)
    requires
        0 <= pos,
        writable_text(text),
        pos + text_bytes(text).len() <= bytes.len(),
        bytes.subrange(pos, pos + text_bytes(text).len()) == text_bytes(text),
    ensures
        parse_text(bytes, pos) == Ok::<(Seq<char>, int), VdfError>(
            (text, pos + text_bytes(text).len()),
        ),
{
    let utf8 = encode_utf8(text);
    let zero = pos + utf8.len();
    let written = bytes.subrange(pos, pos + text_bytes(text).len());
    assert forall|k: int| pos <= k < zero implies bytes[k] != 0 by {
        assert(bytes[k] == written[k - pos]);
        assert(written[k - pos] == utf8[k - pos]);
    }
    assert(bytes[zero] == written[utf8.len() as int]);
    lemma_first_zero_is(bytes, pos, zero);
    assert(bytes.subrange(pos, zero) =~= utf8) by {
        assert forall|k: int| 0 <= k < utf8.len() implies bytes[pos + k] == utf8[k] by {
            assert(bytes[pos + k] == written[k]);
        }
    }
    encode_utf8_valid_utf8(text);
    encode_utf8_decode_utf8(text);
}

/// A value that was written is read back: where `bytes` holds at `pos`
/// the bytes of a well-formed value, the value is read there, up to the
/// end of those bytes.
pub proof fn lemma_parse_written_value(bytes: Seq<u8>, pos: int, value: VdfValue)
    requires
        0 <= pos,
        well_formed(value),
        pos + encoded_value(value).len() <= bytes.len(),
        bytes.subrange(pos, pos + encoded_value(value).len()) == encoded_value(value),
    ensures
        parse_value(bytes, tag_of(value), pos) == Ok::<(VdfValue, int), VdfError>(
            (value, pos + encoded_value(value).len()),
        ),
    decreases value,
{
    lemma_u32_round_trip();
    lemma_u64_round_trip();
    lemma_i32_bits_round_trip();
    match value {
        VdfValue::Object(fields) => {
            assert(Seq::<VdfField>::empty() + fields =~= fields);
            lemma_parse_written_fields(bytes, pos, Seq::empty(), fields);
        },
        VdfValue::String(text) => {
            lemma_parse_written_text(bytes, pos, text);
        },
        VdfValue::Int32(number) => {},
        VdfValue::UInt64(number) => {},
        VdfValue::Blob(blob) => {
            let length = blob.len() as u32;
            lemma_stretch_splits(bytes, pos, u32_bytes(length), blob);
        },
    }
}

/// Fields that were written are read back: where `bytes` holds at `pos`
/// the bytes of the fields `rest` and an end tag, and `rest` behind `seen`
/// is well formed, reading at `pos` with `seen` read before gives `rest`
/// behind `seen`, up to the end tag.
pub proof fn lemma_parse_written_fields(
    bytes: Seq<u8>,
    pos: int,
    seen: Seq<VdfField>,
    rest: Seq<VdfField>,
)
    requires
        0 <= pos,
        well_formed(VdfValue::Object(seen + rest)),
        pos + encoded_fields(rest).len() + 1 <= bytes.len(),
        bytes.subrange(pos, pos + encoded_fields(rest).len() + 1) == encoded_fields(rest).push(
            TAG_END,
        ),
    ensures
        parse_fields(bytes, pos, seen) == Ok::<(Seq<VdfField>, int), VdfError>(
            (seen + rest, pos + encoded_fields(rest).len() + 1),
        ),
    decreases rest,
{
    let all = seen + rest;
    let written = bytes.subrange(pos, pos + encoded_fields(rest).len() + 1);
    if rest.len() == 0 {
        assert(bytes[pos] == written[0]);
        assert(all =~= seen);
    } else {
        let field = rest[0];
        let tail = rest.drop_first();
        lemma_encoded_fields_front(rest);
        let tag = seq![tag_of(field.value)];
        let key = text_bytes(field.key);
        let body = encoded_value(field.value);
        let after = encoded_fields(tail).push(TAG_END);
        assert(written =~= tag + (key + (body + after)));
        lemma_stretch_splits(bytes, pos, tag, key + (body + after));
        lemma_stretch_splits(bytes, pos + 1, key, body + after);
        lemma_stretch_splits(bytes, pos + 1 + key.len(), body, after);
        assert(bytes[pos] == bytes.subrange(pos, pos + 1)[0]);
        assert(all[seen.len() as int] == field);
        assert(bytes[pos] == tag_of(field.value));
        lemma_parse_written_text(bytes, pos + 1, field.key);
        assert(!has_key(seen, field.key)) by {
            assert forall|i: int| 0 <= i < seen.len() implies (#[trigger] seen[i]).key
                != field.key by {
                assert(all[i] == seen[i]);
                assert(all[i].key != all[seen.len() as int].key);
            }
        }
        lemma_parse_written_value(bytes, pos + 1 + key.len(), field.value);
        let next = seen.push(field);
        assert(next + tail =~= all);
        lemma_parse_written_fields(bytes, pos + 1 + key.len() + body.len(), next, tail);
    }
}

/// Encoding and then decoding gives the value back: the bytes written for
/// a well-formed object are read as that object, and reading takes all of
/// them.
pub proof fn lemma_encode_then_decode(value: VdfValue)
    requires
        value is Object,
        well_formed(value),
    ensures
        decoded(encoded_value(value)) == Ok::<VdfValue, VdfError>(value),
        holds_one_object(encoded_value(value)),
{
    let bytes = encoded_value(value);
    let fields = value->Object_0;
    assert(bytes.subrange(0, bytes.len() as int) =~= bytes);
    assert(Seq::<VdfField>::empty() + fields =~= fields);
    lemma_parse_written_fields(bytes, 0, Seq::empty(), fields);
}

/// What was read from a buffer is read again from the bytes written for
/// it: writing the object that a buffer holds and reading those bytes
/// gives the same object.
pub proof fn lemma_decode_encode_decode(bytes: Seq<u8>)
    requires
        decoded(bytes) is Ok,
    ensures
        decoded(encoded_value(decoded(bytes)->Ok_0)) == decoded(bytes),
{
    lemma_decode_then_encode_prefix(bytes);
    lemma_encode_then_decode(decoded(bytes)->Ok_0);
}

} // verus!
