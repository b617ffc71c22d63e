//! Writing a VDF tree as bytes.

use crate::format::{
    encoded_field, encoded_fields, encoded_value, tag_of, text_bytes, TAG_BLOB, TAG_END, TAG_INT32,
    TAG_OBJECT, TAG_STRING, TAG_UINT64,
};
use crate::node::{fields_of, lemma_object_view, VdfEntry, VdfNode};
use crate::wire::{push_i32, push_u32, push_u64};
use vstd::prelude::*;

verus! {

/// Appends `bytes` to `out`.
fn push_bytes(out: &mut Vec<u8>, bytes: &[u8])
    ensures
        final(out)@ == old(out)@ + bytes@,
{
    let mut i: usize = 0;
    while i < bytes.len()
        invariant
            i <= bytes.len(),
            out@ == old(out)@ + bytes@.take(i as int),
        decreases bytes.len() - i,
    {
        out.push(bytes[i]);
        i += 1;
    }
}

/// Appends `text` as it stands on the wire: its UTF-8 bytes, then a zero
/// byte.
fn push_text(out: &mut Vec<u8>, text: &str)
    ensures
        final(out)@ == old(out)@ + text_bytes(text@),
{
    push_bytes(out, text.as_bytes());
    out.push(0u8);
}

/// The tag that tells the kind of `node`.
fn tag_for(node: &VdfNode) -> (tag: u8)
    ensures
        tag == tag_of(node@),
{
    match node {
        VdfNode::Object(_) => TAG_OBJECT,
        VdfNode::String(_) => TAG_STRING,
        VdfNode::Int32(_) => TAG_INT32,
        VdfNode::UInt64(_) => TAG_UINT64,
        VdfNode::Blob(_) => TAG_BLOB,
    }
}

/// Appends the bytes of `node` to `out`.
pub fn write_value(out: &mut Vec<u8>, node: &VdfNode)
    ensures
        final(out)@ == old(out)@ + encoded_value(node@),
    decreases node,
{
    match node {
        VdfNode::Object(entries) => {
            proof {
                lemma_object_view(*entries);
            }
            write_fields(out, entries);
            out.push(TAG_END);
            assert(out@ == old(out)@ + encoded_fields(fields_of(entries@)).push(TAG_END));
        },
        VdfNode::String(text) => {
            push_text(out, text.as_str());
        },
        VdfNode::Int32(number) => {
            push_i32(out, *number);
        },
        VdfNode::UInt64(number) => {
            push_u64(out, *number);
        },
        VdfNode::Blob(bytes) => {
            push_u32(out, bytes.len() as u32);
            push_bytes(out, bytes.as_slice());
            assert(out@ == old(out)@ + (crate::wire::u32_bytes(bytes@.len() as u32) + bytes@));
        },
    }
}

/// Appends the bytes of the fields `entries` to `out`, without an end tag.
pub fn write_fields(out: &mut Vec<u8>, entries: &Vec<VdfEntry>)
    ensures
        final(out)@ == old(out)@ + encoded_fields(fields_of(entries@)),
    decreases entries,
{
    let ghost fields = fields_of(entries@);
    let mut i: usize = 0;
    assert(out@ == old(out)@ + encoded_fields(fields.take(0)));
    while i < entries.len()
        invariant
            i <= entries.len(),
            fields == fields_of(entries@),
            out@ == old(out)@ + encoded_fields(fields.take(i as int)),
        decreases entries.len() - i,
    {
        let entry = &entries[i];
        let ghost before = out@;
        out.push(tag_for(&entry.value));
        push_text(out, entry.key.as_str());
        write_value(out, &entry.value);
        proof {
            assert(fields.take(i + 1).drop_last() == fields.take(i as int));
            assert(fields.take(i + 1).last() == entry@);
            assert(out@ == before + encoded_field(entry@));
        }
        i += 1;
    }
    assert(fields.take(entries.len() as int) == fields);
}

/// The bytes that stand for `node`: for an object its fields and an end
/// tag, as a file holds them.
pub fn encode(node: &VdfNode) -> (bytes: Vec<u8>)
    ensures
        bytes@ == encoded_value(node@),
{
    let mut bytes: Vec<u8> = Vec::new();
    write_value(&mut bytes, node);
    bytes
}

} // verus!
