use steam_art_manager::decoder::{decode, decode_with_length, read_fields, read_value};
use steam_art_manager::encoder::{encode, write_fields, write_value};
use steam_art_manager::error::VdfError;
use steam_art_manager::format::{TAG_BLOB, TAG_END, TAG_INT32, TAG_OBJECT, TAG_STRING, TAG_UINT64};
use steam_art_manager::node::{
    are_well_formed, find_entry, has_distinct_keys, is_writable_text, same_text, VdfEntry, VdfNode,
};
use steam_art_manager::reader::Reader;

fn entry(key: &str, value: VdfNode) -> VdfEntry {
    VdfEntry { key: key.to_string(), value }
}

fn text(value: &str) -> VdfNode {
    VdfNode::String(value.to_string())
}

fn sample_tree() -> VdfNode {
    VdfNode::Object(vec![entry(
        "shortcuts",
        VdfNode::Object(vec![entry(
            "0",
            VdfNode::Object(vec![
                entry("appid", VdfNode::Int32(730)),
                entry("AppName", text("Game")),
                entry("icon", text("")),
                entry("tags", VdfNode::Object(vec![entry("0", text("fav"))])),
            ]),
        )]),
    )])
}

fn sample_bytes() -> Vec<u8> {
    let mut bytes = Vec::new();
    bytes.extend_from_slice(b"\x00shortcuts\x00");
    bytes.extend_from_slice(b"\x000\x00");
    bytes.extend_from_slice(b"\x02appid\x00\xda\x02\x00\x00");
    bytes.extend_from_slice(b"\x01AppName\x00Game\x00");
    bytes.extend_from_slice(b"\x01icon\x00\x00");
    bytes.extend_from_slice(b"\x00tags\x00\x010\x00fav\x00\x08");
    bytes.extend_from_slice(b"\x08\x08\x08");
    bytes
}

#[test]
fn tags_have_their_values() {
    assert_eq!(TAG_OBJECT, 0x00);
    assert_eq!(TAG_STRING, 0x01);
    assert_eq!(TAG_INT32, 0x02);
    assert_eq!(TAG_UINT64, 0x07);
    assert_eq!(TAG_END, 0x08);
    assert_eq!(TAG_BLOB, 0x09);
}

#[test]
fn decode_reads_a_shortcuts_file() {
    assert_eq!(decode(&sample_bytes()), Ok(sample_tree()));
}

#[test]
fn encode_writes_a_shortcuts_file() {
    assert_eq!(encode(&sample_tree()), sample_bytes());
}

#[test]
fn decode_then_encode_gives_the_buffer_back() {
    let bytes = sample_bytes();
    let tree = decode(&bytes).unwrap();
    assert_eq!(encode(&tree), bytes);
}

#[test]
fn encode_then_decode_gives_the_tree_back() {
    let tree = VdfNode::Object(vec![
        entry("number", VdfNode::Int32(-5)),
        entry("big", VdfNode::UInt64(0x0102030405060708)),
        entry("blob", VdfNode::Blob(vec![0, 1, 2, 0, 255])),
        entry("text", text("grüße")),
        entry("empty", VdfNode::Object(vec![])),
        entry("", text("empty key")),
    ]);
    let bytes = encode(&tree);
    assert_eq!(decode(&bytes), Ok(tree));
}

#[test]
fn every_kind_has_its_bytes() {
    assert_eq!(encode(&VdfNode::Object(vec![])), vec![0x08]);
    assert_eq!(encode(&text("ab")), vec![b'a', b'b', 0]);
    assert_eq!(encode(&VdfNode::Int32(1)), vec![1, 0, 0, 0]);
    assert_eq!(encode(&VdfNode::Int32(-2)), vec![0xfe, 0xff, 0xff, 0xff]);
    assert_eq!(encode(&VdfNode::Int32(i32::MIN)), vec![0, 0, 0, 0x80]);
    assert_eq!(
        encode(&VdfNode::UInt64(0x1122334455667788)),
        vec![0x88, 0x77, 0x66, 0x55, 0x44, 0x33, 0x22, 0x11]
    );
    assert_eq!(encode(&VdfNode::Blob(vec![9, 8, 7])), vec![3, 0, 0, 0, 9, 8, 7]);
    assert_eq!(
        encode(&VdfNode::Object(vec![entry("k", VdfNode::Blob(vec![0xaa]))])),
        vec![0x09, b'k', 0, 1, 0, 0, 0, 0xaa, 0x08]
    );
    assert_eq!(
        encode(&VdfNode::Object(vec![entry("n", VdfNode::UInt64(2))])),
        vec![0x07, b'n', 0, 2, 0, 0, 0, 0, 0, 0, 0, 0x08]
    );
}

#[test]
fn fields_keep_their_order() {
    let bytes = b"\x01b\x00two\x00\x01a\x00one\x00\x08".to_vec();
    let tree = decode(&bytes).unwrap();
    assert_eq!(tree, VdfNode::Object(vec![entry("b", text("two")), entry("a", text("one"))]));
    assert_eq!(encode(&tree), bytes);
}

#[test]
fn bytes_after_the_end_tag_are_not_looked_at() {
    assert_eq!(decode(&[0x08, 0xff, 0x55]), Ok(VdfNode::Object(vec![])));
    assert_eq!(encode(&decode(&[0x08, 0xff, 0x55]).unwrap()), vec![0x08]);
}

#[test]
fn empty_buffer_is_truncated() {
    assert_eq!(decode(&[]), Err(VdfError::TruncatedInput));
}

#[test]
fn object_without_end_tag_is_truncated() {
    assert_eq!(decode(b"\x01a\x00one\x00"), Err(VdfError::TruncatedInput));
    assert_eq!(decode(b"\x00outer\x00\x08"), Err(VdfError::TruncatedInput));
}

#[test]
fn key_without_zero_byte_is_truncated() {
    assert_eq!(decode(b"\x01abc"), Err(VdfError::TruncatedInput));
}

#[test]
fn number_cut_short_is_truncated() {
    assert_eq!(decode(b"\x02n\x00\x01\x02\x03"), Err(VdfError::TruncatedInput));
    assert_eq!(decode(b"\x07n\x00\x01\x02\x03\x04\x05\x06\x07"), Err(VdfError::TruncatedInput));
}

#[test]
fn blob_cut_short_is_truncated() {
    assert_eq!(decode(b"\x09b\x00\x04\x00\x00\x00\x01\x02\x03"), Err(VdfError::TruncatedInput));
    assert_eq!(decode(b"\x09b\x00\x04\x00"), Err(VdfError::TruncatedInput));
}

#[test]
fn unknown_tag_is_refused() {
    assert_eq!(decode(b"\x03f\x00\x00\x00\x00\x00\x08"), Err(VdfError::UnknownTypeTag));
    assert_eq!(decode(&[0x55]), Err(VdfError::UnknownTypeTag));
    assert_eq!(decode(b"\x00o\x00\xff"), Err(VdfError::UnknownTypeTag));
}

#[test]
fn duplicate_key_is_refused() {
    assert_eq!(decode(b"\x01a\x00one\x00\x01a\x00two\x00\x08"), Err(VdfError::DuplicateKey));
    assert_eq!(
        decode(b"\x00o\x00\x01a\x00one\x00\x02a\x00\x01\x00\x00\x00\x08\x08"),
        Err(VdfError::DuplicateKey)
    );
}

#[test]
fn same_key_in_different_objects_is_fine() {
    let bytes = b"\x00x\x00\x01a\x00one\x00\x08\x00y\x00\x01a\x00two\x00\x08\x08".to_vec();
    assert_eq!(
        decode(&bytes),
        Ok(VdfNode::Object(vec![
            entry("x", VdfNode::Object(vec![entry("a", text("one"))])),
            entry("y", VdfNode::Object(vec![entry("a", text("two"))])),
        ]))
    );
}

#[test]
fn text_that_is_not_utf8_is_refused() {
    assert_eq!(decode(b"\x01a\x00\xff\xfe\x00\x08"), Err(VdfError::MalformedText));
    assert_eq!(decode(b"\x01\xc3\x00x\x00\x08"), Err(VdfError::MalformedText));
}

#[test]
fn reader_reads_numbers_little_endian() {
    let data = [0x78, 0x56, 0x34, 0x12, 0xff, 0xff, 0xff, 0xff, 1, 2, 3, 4, 5, 6, 7, 8];
    let mut reader = Reader::new(&data);
    assert_eq!(reader.read_u32(), Ok(0x12345678));
    assert_eq!(reader.position(), 4);
    assert_eq!(reader.read_i32(), Ok(-1));
    assert_eq!(reader.read_u64(), Ok(0x0807060504030201));
    assert_eq!(reader.remaining(), 0);
    assert_eq!(reader.read_u32(), Err(VdfError::TruncatedInput));
    assert_eq!(reader.read_byte(), Err(VdfError::TruncatedInput));
}

#[test]
fn reader_reads_the_largest_and_smallest_numbers() {
    let data = [0xff, 0xff, 0xff, 0x7f, 0x00, 0x00, 0x00, 0x80, 0xff, 0xff, 0xff, 0xff];
    let mut reader = Reader::new(&data);
    assert_eq!(reader.read_i32(), Ok(i32::MAX));
    assert_eq!(reader.read_i32(), Ok(i32::MIN));
    assert_eq!(reader.read_u32(), Ok(u32::MAX));
    let data = [0xff; 8];
    let mut reader = Reader::new(&data);
    assert_eq!(reader.read_u64(), Ok(u64::MAX));
}

#[test]
fn reader_leaves_the_cursor_on_failure() {
    let data = [1, 2, 3];
    let mut reader = Reader::new(&data);
    assert_eq!(reader.read_u32(), Err(VdfError::TruncatedInput));
    assert_eq!(reader.read_u64(), Err(VdfError::TruncatedInput));
    assert_eq!(reader.read_string(), Err(VdfError::TruncatedInput));
    assert_eq!(reader.skip(4), Err(VdfError::TruncatedInput));
    assert_eq!(reader.position(), 0);
    assert_eq!(reader.read_byte(), Ok(1));
    assert_eq!(reader.skip(2), Ok(()));
    assert_eq!(reader.position(), 3);
}

#[test]
fn reader_reads_text_up_to_the_zero_byte() {
    let data = b"caf\xc3\xa9\x00\x00rest";
    let mut reader = Reader::new(data);
    assert_eq!(reader.read_string(), Ok("café".to_string()));
    assert_eq!(reader.position(), 6);
    assert_eq!(reader.read_string(), Ok(String::new()));
    assert_eq!(reader.position(), 7);
    assert_eq!(reader.read_string(), Err(VdfError::TruncatedInput));
    assert_eq!(reader.position(), 7);
    let mut reader = Reader::new(b"\xff\x00");
    assert_eq!(reader.read_string(), Err(VdfError::MalformedText));
    assert_eq!(reader.position(), 0);
}

#[test]
fn reader_reads_blobs_with_their_length() {
    let data = [2, 0, 0, 0, 0xaa, 0xbb, 0, 0, 0, 0, 5, 0, 0, 0, 1];
    let mut reader = Reader::new(&data);
    assert_eq!(reader.read_blob(), Ok(vec![0xaa, 0xbb]));
    assert_eq!(reader.read_blob(), Ok(vec![]));
    assert_eq!(reader.position(), 10);
    assert_eq!(reader.read_blob(), Err(VdfError::TruncatedInput));
    assert_eq!(reader.position(), 10);
}

#[test]
fn values_are_read_by_their_tag() {
    let data = [7, 0, 0, 0, 0, 0, 0, 0, 0xff];
    let mut reader = Reader::new(&data);
    assert_eq!(read_value(&mut reader, TAG_INT32), Ok(VdfNode::Int32(7)));
    assert_eq!(reader.position(), 4);
    let mut reader = Reader::new(&data);
    assert_eq!(read_value(&mut reader, TAG_UINT64), Ok(VdfNode::UInt64(7)));
    let mut reader = Reader::new(&data);
    assert_eq!(read_value(&mut reader, TAG_END), Err(VdfError::UnknownTypeTag));
    assert_eq!(read_value(&mut reader, 0x0a), Err(VdfError::UnknownTypeTag));
    let mut reader = Reader::new(b"\x08tail");
    assert_eq!(read_fields(&mut reader), Ok(vec![]));
    assert_eq!(reader.position(), 1);
}

#[test]
fn values_and_fields_are_appended() {
    let mut out = vec![0xee];
    write_value(&mut out, &VdfNode::Int32(3));
    assert_eq!(out, vec![0xee, 3, 0, 0, 0]);
    write_fields(&mut out, &vec![entry("a", text("b"))]);
    assert_eq!(out, vec![0xee, 3, 0, 0, 0, 1, b'a', 0, b'b', 0]);
}

#[test]
fn nodes_are_found_by_key() {
    let tree = sample_tree();
    let shortcuts = tree.get("shortcuts").unwrap();
    let first = shortcuts.get("0").unwrap();
    assert_eq!(first.get("AppName"), Some(&text("Game")));
    assert_eq!(first.get("appid"), Some(&VdfNode::Int32(730)));
    assert_eq!(first.get("missing"), None);
    assert_eq!(text("x").get("anything"), None);
    let entries = vec![entry("a", text("1")), entry("b", text("2")), entry("a", text("3"))];
    assert_eq!(find_entry(&entries, "a"), Some(0));
    assert_eq!(find_entry(&entries, "b"), Some(1));
    assert_eq!(find_entry(&entries, "c"), None);
    assert!(same_text("icon", "icon"));
    assert!(!same_text("icon", "Icon"));
}

#[test]
fn duplicate_copies_the_whole_tree() {
    let tree = sample_tree();
    assert_eq!(tree.duplicate(), tree);
}

#[test]
fn errors_describe_themselves() {
    assert_eq!(VdfError::TruncatedInput.message(), "the input ended in the middle of a value");
    assert_eq!(VdfError::MalformedHeader.message(), "the header does not name a known version");
    assert_eq!(VdfError::UnknownTypeTag.message(), "a tag byte stands for no kind of value");
    assert_eq!(
        VdfError::MissingKey.message(),
        "a key that the file's structure calls for is absent"
    );
    assert_eq!(VdfError::DuplicateKey.message(), "a key occurs twice in one object");
    assert_eq!(VdfError::MalformedText.message(), "the input is not well-formed text");
}

#[test]
fn decode_tells_how_many_bytes_it_took() {
    let bytes = sample_bytes();
    assert_eq!(decode_with_length(&bytes), Ok((sample_tree(), bytes.len())));
    let mut longer = bytes.clone();
    longer.extend_from_slice(b"tail");
    assert_eq!(decode_with_length(&longer), Ok((sample_tree(), bytes.len())));
    assert_eq!(decode_with_length(&[0x08, 0x08]), Ok((VdfNode::Object(vec![]), 1)));
    assert_eq!(decode_with_length(&[]), Err(VdfError::TruncatedInput));
}

#[test]
fn text_with_a_zero_character_cannot_be_written() {
    assert!(is_writable_text("icon"));
    assert!(is_writable_text(""));
    assert!(is_writable_text("grüße/日本"));
    assert!(!is_writable_text("ic\0on"));
    assert!(!is_writable_text("\0"));
}

#[test]
fn well_formed_trees_are_told_apart() {
    assert!(sample_tree().is_well_formed());
    assert!(VdfNode::Object(vec![]).is_well_formed());
    assert!(VdfNode::Blob(vec![0, 0]).is_well_formed());
    assert!(!text("a\0b").is_well_formed());
    assert!(!VdfNode::Object(vec![entry("a\0", text("x"))]).is_well_formed());
    assert!(!VdfNode::Object(vec![entry("a", text("1")), entry("a", text("2"))]).is_well_formed());
    let nested = VdfNode::Object(vec![entry(
        "outer",
        VdfNode::Object(vec![entry("k", text("v")), entry("bad", text("\0"))]),
    )]);
    assert!(!nested.is_well_formed());
    assert!(has_distinct_keys(&vec![entry("a", text("1")), entry("b", text("1"))]));
    assert!(!has_distinct_keys(&vec![entry("a", text("1")), entry("b", text("2")), entry("a", text("3"))]));
    assert!(has_distinct_keys(&vec![]));
    assert!(are_well_formed(&vec![entry("a", text("1")), entry("a", text("2"))]));
    assert!(!are_well_formed(&vec![entry("a", text("\0"))]));
}

#[test]
fn trees_that_are_not_well_formed_do_not_read_back() {
    let twice = VdfNode::Object(vec![entry("a", text("1")), entry("a", text("2"))]);
    assert_eq!(decode(&encode(&twice)), Err(VdfError::DuplicateKey));
    let zero = VdfNode::Object(vec![entry("k", text("a\0b"))]);
    assert!(decode(&encode(&zero)) != Ok(zero));
}

#[test]
fn numbers_without_a_kind_become_nodes() {
    assert_eq!(VdfNode::from_number(0), VdfNode::Int32(0));
    assert_eq!(VdfNode::from_number(730), VdfNode::Int32(730));
    assert_eq!(VdfNode::from_number(2789567296), VdfNode::Int32(-1505400000));
    assert_eq!(VdfNode::from_number(4294967295), VdfNode::Int32(-1));
    assert_eq!(VdfNode::from_number(4294967296), VdfNode::UInt64(4294967296));
    assert_eq!(VdfNode::from_number(u64::MAX), VdfNode::UInt64(u64::MAX));
    assert_eq!(VdfNode::Int32(-1).number(), Some(4294967295));
    assert_eq!(VdfNode::Int32(730).number(), Some(730));
    assert_eq!(VdfNode::UInt64(5).number(), Some(5));
    assert_eq!(text("5").number(), None);
    assert_eq!(VdfNode::Blob(vec![5]).number(), None);
    for number in [0u64, 1, 0x7fff_ffff, 0x8000_0000, 0xffff_ffff, 0x1_0000_0000, u64::MAX] {
        assert_eq!(VdfNode::from_number(number).number(), Some(number));
    }
}
