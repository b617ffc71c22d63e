//! The tree that a binary VDF file holds.

use crate::format::{distinct_keys, well_formed, writable_text, VdfField, VdfValue};
use crate::wire::{bits_of_i32, i32_from_bits, i32_of_bits, i32_to_bits};
use vstd::prelude::*;

verus! {

/// A node of a VDF tree. The fields of an object keep the order in which
/// they stand in the file.
#[derive(Debug, PartialEq, Eq)]
pub enum VdfNode {
    Object(Vec<VdfEntry>),
    String(String),
    Int32(i32),
    UInt64(u64),
    Blob(Vec<u8>),
}

/// A field of an object: a key and the node under it.
#[derive(Debug, PartialEq, Eq)]
pub struct VdfEntry {
    pub key: String,
    pub value: VdfNode,
}

impl VdfNode {
    /// The value that the node stands for.
    pub open spec fn value(&self) -> VdfValue
        decreases self,
    {
        match self {
            VdfNode::Object(entries) => VdfValue::Object(
                Seq::new(
                    entries.len() as nat,
                    |i: int|
                        if 0 <= i < entries.len() {
                            VdfField { key: entries[i].key@, value: entries[i].value.value() }
                        } else {
                            arbitrary()
                        },
                ),
            ),
            VdfNode::String(text) => VdfValue::String(text@),
            VdfNode::Int32(number) => VdfValue::Int32(*number),
            VdfNode::UInt64(number) => VdfValue::UInt64(*number),
            VdfNode::Blob(bytes) => VdfValue::Blob(bytes@),
        }
    }
}

impl View for VdfNode {
    type V = VdfValue;

    open spec fn view(&self) -> VdfValue {
        self.value()
    }
}

impl View for VdfEntry {
    type V = VdfField;

    open spec fn view(&self) -> VdfField {
        VdfField { key: self.key@, value: self.value@ }
    }
}

/// The fields that a list of entries stands for.
pub open spec fn fields_of(entries: Seq<VdfEntry>) -> Seq<VdfField> {
    Seq::new(entries.len(), |i: int| entries[i]@)
}

/// An object stands for the fields of its entries.
pub proof fn lemma_object_view(entries: Vec<VdfEntry>)
    ensures
        VdfNode::Object(entries)@ == VdfValue::Object(fields_of(entries@)),
{
    assert(VdfNode::Object(entries)@->Object_0 =~= fields_of(entries@));
}

/// The fields of a list with one more entry.
pub proof fn lemma_fields_of_push(entries: Seq<VdfEntry>, entry: VdfEntry)
    ensures
        fields_of(entries.push(entry)) == fields_of(entries).push(entry@),
{
    assert(fields_of(entries.push(entry)) =~= fields_of(entries).push(entry@));
}

/// A copy of `bytes`.
fn copy_bytes(bytes: &Vec<u8>) -> (copy: Vec<u8>)
    ensures
        copy@ == bytes@,
{
    let mut copy: Vec<u8> = Vec::new();
    let mut i: usize = 0;
    while i < bytes.len()
        invariant
            i <= bytes.len(),
            copy@ == bytes@.take(i as int),
        decreases bytes.len() - i,
    {
        copy.push(bytes[i]);
        i += 1;
    }
    copy
}

impl VdfNode {
    /// A copy of the node and of all that is below it.
    pub fn duplicate(&self) -> (copy: VdfNode)
        ensures
            copy@ == self@,
        decreases self,
    {
        match self {
            VdfNode::Object(entries) => {
                let copies = duplicate_entries(entries);
                proof {
                    lemma_object_view(*entries);
                    lemma_object_view(copies);
                }
                VdfNode::Object(copies)
            },
            VdfNode::String(text) => VdfNode::String(text.clone()),
            VdfNode::Int32(number) => VdfNode::Int32(*number),
            VdfNode::UInt64(number) => VdfNode::UInt64(*number),
            VdfNode::Blob(bytes) => VdfNode::Blob(copy_bytes(bytes)),
        }
    }

    /// The node under the first field with the key `key`, where the node is
    /// an object that has such a field.
    pub fn get(&self, key: &str) -> (found: Option<&VdfNode>)
        ensures
            match found {
                Some(node) => field_value(self@, key@) == Some(node@),
                None => field_value(self@, key@) is None,
            },
    {
        match self {
            VdfNode::Object(entries) => {
                proof {
                    lemma_object_view(*entries);
                }
                match find_entry(entries, key) {
                    Some(i) => {
                        assert(fields_of(entries@)[i as int] == entries@[i as int]@);
                        Some(&entries[i].value)
                    },
                    None => None,
                }
            },
            _ => None,
        }
    }
}

/// A copy of a list of entries.
pub fn duplicate_entries(entries: &Vec<VdfEntry>) -> (copies: Vec<VdfEntry>)
    ensures
        fields_of(copies@) == fields_of(entries@),
    decreases entries,
{
    let mut copies: Vec<VdfEntry> = Vec::new();
    let mut i: usize = 0;
    while i < entries.len()
        invariant
            i <= entries.len(),
            fields_of(copies@) == fields_of(entries@).take(i as int),
        decreases entries.len() - i,
    {
        let entry = &entries[i];
        let copy = VdfEntry { key: entry.key.clone(), value: entry.value.duplicate() };
        proof {
            lemma_fields_of_push(copies@, copy);
        }
        copies.push(copy);
        i += 1;
    }
    copies
}

/// The index of the first of `fields` with the key `key`, or -1.
pub open spec fn index_of_key(fields: Seq<VdfField>, key: Seq<char>) -> int
    decreases fields.len(),
{
    if fields.len() == 0 {
        -1
    } else {
        let before = index_of_key(fields.drop_last(), key);
        if before >= 0 {
            before
        } else if fields.last().key == key {
            fields.len() - 1
        } else {
            -1
        }
    }
}

/// What `index_of_key` finds: the first field with the key.
pub proof fn lemma_index_of_key(fields: Seq<VdfField>, key: Seq<char>)
    ensures
        -1 <= index_of_key(fields, key) < fields.len(),
        index_of_key(fields, key) >= 0 ==> fields[index_of_key(fields, key)].key == key,
        forall|i: int|
            0 <= i < fields.len() && fields[i].key == key ==> 0 <= index_of_key(fields, key) <= i,
    decreases fields.len(),
{
    if fields.len() > 0 {
        lemma_index_of_key(fields.drop_last(), key);
        assert forall|i: int| 0 <= i < fields.len() && fields[i].key == key implies 0
            <= index_of_key(fields, key) <= i by {
            if i < fields.len() - 1 {
                assert(fields.drop_last()[i] == fields[i]);
            }
        }
    }
}

/// The value under the first field of the object `value` with the key
/// `key`.
pub open spec fn field_value(value: VdfValue, key: Seq<char>) -> Option<VdfValue> {
    match value {
        VdfValue::Object(fields) => if index_of_key(fields, key) >= 0 {
            Some(fields[index_of_key(fields, key)].value)
        } else {
            None
        },
        _ => None,
    }
}

/// The index of the first entry with the key `key`.
pub fn find_entry(entries: &Vec<VdfEntry>, key: &str) -> (found: Option<usize>)
    ensures
        match found {
            Some(i) => i < entries.len() && i == index_of_key(fields_of(entries@), key@),
            None => index_of_key(fields_of(entries@), key@) == -1,
        },
{
    let ghost fields = fields_of(entries@);
    let mut i: usize = 0;
    while i < entries.len()
        invariant
            i <= entries.len(),
            fields == fields_of(entries@),
            index_of_key(fields.take(i as int), key@) == -1,
        decreases entries.len() - i,
    {
        assert(fields.take(i + 1).drop_last() == fields.take(i as int));
        assert(fields.take(i + 1).last() == entries@[i as int]@);
        if same_text(entries[i].key.as_str(), key) {
            proof {
                lemma_index_of_key(fields, key@);
                lemma_index_of_key(fields.take(i as int), key@);
                lemma_index_of_key(fields.take(i + 1), key@);
                let found = index_of_key(fields, key@);
                assert(fields[i as int].key == key@);
                if found < i {
                    assert(fields.take(i as int)[found] == fields[found]);
                }
            }
            return Some(i);
        }
        i += 1;
    }
    assert(fields.take(entries.len() as int) == fields);
    None
}

/// Whether two texts are the same.
pub fn same_text(left: &str, right: &str) -> (same: bool)
    ensures
        same == (left@ == right@),
{
    let left_chars = crate::text::chars_of(left);
    let right_chars = crate::text::chars_of(right);
    crate::text::same_chars(&left_chars, &right_chars)
}

/// Whether `text` can be written: whether its UTF-8 bytes hold no zero byte.
pub fn is_writable_text(text: &str) -> (writable: bool)
    ensures
        writable == writable_text(text@),
{
    let bytes = text.as_bytes();
    let mut i: usize = 0;
    while i < bytes.len()
        invariant
            i <= bytes.len(),
            bytes@ == vstd::utf8::encode_utf8(text@),
            forall|k: int| 0 <= k < i ==> bytes@[k] != 0,
        decreases bytes.len() - i,
    {
        if bytes[i] == 0 {
            return false;
        }
        i += 1;
    }
    true
}

/// Whether no two of `entries` share a key.
pub fn has_distinct_keys(entries: &Vec<VdfEntry>) -> (distinct: bool)
    ensures
        distinct == distinct_keys(fields_of(entries@)),
{
    let ghost fields = fields_of(entries@);
    let mut j: usize = 0;
    while j < entries.len()
        invariant
            j <= entries.len(),
            fields == fields_of(entries@),
            forall|a: int, b: int|
                #![trigger fields[a], fields[b]]
                0 <= a < b < j ==> fields[a].key != fields[b].key,
        decreases entries.len() - j,
    {
        let mut i: usize = 0;
        while i < j
            invariant
                i <= j < entries.len(),
                fields == fields_of(entries@),
                forall|a: int| 0 <= a < i ==> (#[trigger] fields[a]).key != fields[j as int].key,
            decreases j - i,
        {
            if entries[i].key == entries[j].key {
                assert(fields[i as int].key == fields[j as int].key);
                return false;
            }
            i += 1;
        }
        j += 1;
    }
    true
}

impl VdfNode {
    /// Whether the node can be written and read back: whether its keys and
    /// strings hold no zero byte, none of its objects has a key twice, and
    /// the length of each of its blobs fits in four bytes.
    pub fn is_well_formed(&self) -> (ok: bool)
        ensures
            ok == well_formed(self@),
        decreases self,
    {
        match self {
            VdfNode::Object(entries) => {
                proof {
                    lemma_object_view(*entries);
                }
                has_distinct_keys(entries) && are_well_formed(entries)
            },
            VdfNode::String(text) => is_writable_text(text.as_str()),
            VdfNode::Int32(_) => true,
            VdfNode::UInt64(_) => true,
            VdfNode::Blob(bytes) => bytes.len() <= 4294967295,
        }
    }
}

/// Whether each of `entries` has a key that can be written and a node that
/// is well formed.
pub fn are_well_formed(entries: &Vec<VdfEntry>) -> (ok: bool)
    ensures
        ok == (forall|i: int|
            0 <= i < fields_of(entries@).len() ==> writable_text(
                (#[trigger] fields_of(entries@)[i]).key,
            ) && well_formed(fields_of(entries@)[i].value)),
    decreases entries,
{
    let ghost fields = fields_of(entries@);
    let mut i: usize = 0;
    while i < entries.len()
        invariant
            i <= entries.len(),
            fields == fields_of(entries@),
            forall|k: int|
                0 <= k < i ==> writable_text((#[trigger] fields[k]).key) && well_formed(
                    fields[k].value,
                ),
        decreases entries.len() - i,
    {
        assert(fields[i as int] == entries@[i as int]@);
        if !is_writable_text(entries[i].key.as_str()) || !entries[i].value.is_well_formed() {
            return false;
        }
        i += 1;
    }
    true
}

/// The value that stands for a number that is exchanged without its kind:
/// a number that fits in 32 bits is a 32-bit number with those bits, a
/// larger one is a 64-bit number.
pub open spec fn number_value(number: u64) -> VdfValue {
    if number <= u32::MAX {
        VdfValue::Int32(i32_of_bits(number as u32))
    } else {
        VdfValue::UInt64(number)
    }
}

/// The number that a value is exchanged as: a 32-bit number as its bits
/// read unsigned, a 64-bit number as it is. Other values are no numbers.
pub open spec fn value_number(value: VdfValue) -> Option<u64> {
    match value {
        VdfValue::Int32(number) => Some(bits_of_i32(number) as u64),
        VdfValue::UInt64(number) => Some(number),
        _ => None,
    }
}

/// A number that is made into a node is exchanged as that number again.
pub proof fn lemma_number_round_trip(number: u64)
    ensures
        value_number(number_value(number)) == Some(number),
{
    crate::wire::lemma_i32_bits_round_trip();
}

impl VdfNode {
    /// The node of a number that came without its kind.
    pub fn from_number(number: u64) -> (node: VdfNode)
        ensures
            node@ == number_value(number),
    {
        if number <= 4294967295 {
            VdfNode::Int32(i32_from_bits(number as u32))
        } else {
            VdfNode::UInt64(number)
        }
    }

    /// The number that the node is exchanged as, where it is a number.
    pub fn number(&self) -> (number: Option<u64>)
        ensures
            number == value_number(self@),
    {
        match self {
            VdfNode::Int32(number) => Some(i32_to_bits(*number) as u64),
            VdfNode::UInt64(number) => Some(*number),
            _ => None,
        }
    }
}

} // verus!
