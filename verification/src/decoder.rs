//! Reading a VDF tree from bytes.

use crate::error::VdfError;
use crate::format::{
    decoded, decoded_length, has_key, parse_fields, parse_value, VdfField, VdfValue, TAG_BLOB,
    TAG_END, TAG_INT32, TAG_OBJECT, TAG_STRING, TAG_UINT64,
};
use crate::node::{fields_of, lemma_fields_of_push, lemma_object_view, VdfEntry, VdfNode};
use crate::reader::Reader;
use vstd::prelude::*;

verus! {

/// Whether one of `entries` has the key `key`.
fn holds_key(entries: &Vec<VdfEntry>, key: &String) -> (found: bool)
    ensures
        found == has_key(fields_of(entries@), key@),
{
    let ghost fields = fields_of(entries@);
    let mut i: usize = 0;
    while i < entries.len()
        invariant
            i <= entries.len(),
            fields == fields_of(entries@),
            forall|k: int| 0 <= k < i ==> (#[trigger] fields[k]).key != key@,
        decreases entries.len() - i,
    {
        if entries[i].key == *key {
            assert(fields[i as int].key == key@);
            return true;
        }
        i += 1;
    }
    false
}

/// Reads the value of the kind `tag` at the cursor.
pub fn read_value(reader: &mut Reader, tag: u8) -> (read: Result<VdfNode, VdfError>)
    ensures
        final(reader).buffer() == old(reader).buffer(),
        old(reader).cursor() <= final(reader).cursor() <= final(reader).buffer().len(),
        match read {
            Ok(node) => parse_value(old(reader).buffer(), tag, old(reader).cursor()) == Ok::<
                (VdfValue, int),
                VdfError,
            >((node@, final(reader).cursor())),
            Err(error) => parse_value(old(reader).buffer(), tag, old(reader).cursor()) == Err::<
                (VdfValue, int),
                VdfError,
            >(error),
        },
    decreases old(reader).buffer().len() - old(reader).cursor(), 1int,
{
    // Asked only for what it tells: that the cursor lies within the buffer.
    let _ = reader.position();
    if tag == TAG_OBJECT {
        match read_fields(reader) {
            Ok(entries) => {
                proof {
                    lemma_object_view(entries);
                }
                Ok(VdfNode::Object(entries))
            },
            Err(error) => Err(error),
        }
    } else if tag == TAG_STRING {
        match reader.read_string() {
            Ok(text) => Ok(VdfNode::String(text)),
            Err(error) => Err(error),
        }
    } else if tag == TAG_INT32 {
        match reader.read_i32() {
            Ok(number) => Ok(VdfNode::Int32(number)),
            Err(error) => Err(error),
        }
    } else if tag == TAG_UINT64 {
        match reader.read_u64() {
            Ok(number) => Ok(VdfNode::UInt64(number)),
            Err(error) => Err(error),
        }
    } else if tag == TAG_BLOB {
        match reader.read_blob() {
            Ok(bytes) => Ok(VdfNode::Blob(bytes)),
            Err(error) => Err(error),
        }
    } else {
        Err(VdfError::UnknownTypeTag)
    }
}

/// Reads the fields of an object, from the cursor up to the end tag that
/// closes them, and moves past that end tag.
pub fn read_fields(reader: &mut Reader) -> (read: Result<Vec<VdfEntry>, VdfError>)
    ensures
        final(reader).buffer() == old(reader).buffer(),
        old(reader).cursor() <= final(reader).cursor() <= final(reader).buffer().len(),
        match read {
            Ok(entries) => parse_fields(old(reader).buffer(), old(reader).cursor(), Seq::empty())
                == Ok::<(Seq<VdfField>, int), VdfError>(
                (fields_of(entries@), final(reader).cursor()),
            ),
            Err(error) => parse_fields(old(reader).buffer(), old(reader).cursor(), Seq::empty())
                == Err::<(Seq<VdfField>, int), VdfError>(error),
        },
    decreases old(reader).buffer().len() - old(reader).cursor(), 0int,
{
    let ghost bytes = reader.buffer();
    let ghost start = reader.cursor();
    let mut entries: Vec<VdfEntry> = Vec::new();
    let _ = reader.position();
    assert(fields_of(entries@) == Seq::<VdfField>::empty());
    loop
        invariant
            reader.buffer() == bytes,
            0 <= start <= reader.cursor() <= bytes.len(),
            bytes == old(reader).buffer(),
            start == old(reader).cursor(),
            parse_fields(bytes, start, Seq::empty()) == parse_fields(
                bytes,
                reader.cursor(),
                fields_of(entries@),
            ),
        decreases bytes.len() - reader.cursor(),
    {
        let ghost pos = reader.cursor();
        let tag = match reader.read_byte() {
            Ok(tag) => tag,
            Err(error) => {
                return Err(error);
            },
        };
        if tag == TAG_END {
            return Ok(entries);
        }
        if !(tag == TAG_OBJECT || tag == TAG_STRING || tag == TAG_INT32 || tag == TAG_UINT64 || tag
            == TAG_BLOB) {
            return Err(VdfError::UnknownTypeTag);
        }
        let key = match reader.read_string() {
            Ok(key) => key,
            Err(error) => {
                return Err(error);
            },
        };
        if holds_key(&entries, &key) {
            return Err(VdfError::DuplicateKey);
        }
        let value = match read_value(reader, tag) {
            Ok(value) => value,
            Err(error) => {
                return Err(error);
            },
        };
        let entry = VdfEntry { key, value };
        proof {
            lemma_fields_of_push(entries@, entry);
        }
        entries.push(entry);
    }
}

/// Reads the object that a buffer holds, and tells how many bytes of the
/// buffer stand for it: the index after the end tag that closes the fields.
pub fn decode_with_length(buffer: &[u8]) -> (read: Result<(VdfNode, usize), VdfError>)
    ensures
        match read {
            Ok((node, length)) => decoded(buffer@) == Ok::<VdfValue, VdfError>(node@) && length
                == decoded_length(buffer@),
            Err(error) => decoded(buffer@) == Err::<VdfValue, VdfError>(error),
        },
{
    let mut reader = Reader::new(buffer);
    match read_fields(&mut reader) {
        Ok(entries) => {
            proof {
                lemma_object_view(entries);
            }
            Ok((VdfNode::Object(entries), reader.position()))
        },
        Err(error) => Err(error),
    }
}

/// Reads the object that a buffer holds: its fields from the first byte up
/// to the end tag that closes them. Bytes after that end tag are not looked
/// at.
pub fn decode(buffer: &[u8]) -> (node: Result<VdfNode, VdfError>)
    ensures
        match node {
            Ok(node) => decoded(buffer@) == Ok::<VdfValue, VdfError>(node@),
            Err(error) => decoded(buffer@) == Err::<VdfValue, VdfError>(error),
        },
{
    match decode_with_length(buffer) {
        Ok((node, _)) => Ok(node),
        Err(error) => Err(error),
    }
}

} // verus!
