use steam_art_manager::appinfo::{
    decode_appinfo, decode_record, AppInfo, AppInfoEntry, MAGIC_V27, MAGIC_V28,
};
use steam_art_manager::error::VdfError;
use steam_art_manager::node::{VdfEntry, VdfNode};

fn header(magic: u32, universe: u32) -> Vec<u8> {
    let mut bytes = magic.to_le_bytes().to_vec();
    bytes.extend_from_slice(&universe.to_le_bytes());
    bytes
}

fn record(app_id: u32, metadata: usize, fields: &[u8]) -> Vec<u8> {
    let mut bytes = app_id.to_le_bytes().to_vec();
    bytes.extend_from_slice(&((metadata + fields.len()) as u32).to_le_bytes());
    bytes.extend(std::iter::repeat(0xab).take(metadata));
    bytes.extend_from_slice(fields);
    bytes
}

fn named(name: &str) -> VdfNode {
    VdfNode::Object(vec![VdfEntry { key: "name".to_string(), value: VdfNode::String(name.to_string()) }])
}

fn named_bytes(name: &str) -> Vec<u8> {
    let mut bytes = b"\x01name\x00".to_vec();
    bytes.extend_from_slice(name.as_bytes());
    bytes.extend_from_slice(b"\x00\x08");
    bytes
}

#[test]
fn magic_numbers_are_those_of_the_file() {
    assert_eq!(MAGIC_V27.to_le_bytes(), [0x27, 0x44, 0x56, 0x07]);
    assert_eq!(MAGIC_V28.to_le_bytes(), [0x28, 0x44, 0x56, 0x07]);
}

#[test]
fn records_are_read_in_order() {
    let mut bytes = header(MAGIC_V27, 1);
    bytes.extend(record(10, 40, &named_bytes("ten")));
    bytes.extend(record(730, 40, &named_bytes("cs")));
    bytes.extend_from_slice(&0u32.to_le_bytes());
    assert_eq!(
        decode_appinfo(&bytes),
        Ok(AppInfo {
            magic: MAGIC_V27,
            universe: 1,
            entries: vec![
                AppInfoEntry { app_id: 10, data: named("ten") },
                AppInfoEntry { app_id: 730, data: named("cs") },
            ],
        })
    );
}

#[test]
fn corrupt_record_does_not_hide_the_others() {
    let mut bytes = header(MAGIC_V27, 1);
    bytes.extend(record(10, 40, &named_bytes("ten")));
    bytes.extend(record(20, 40, b"\x55broken"));
    bytes.extend(record(30, 40, b"\x01name\x00unterminated"));
    bytes.extend(record(40, 12, b""));
    bytes.extend(record(50, 40, &named_bytes("fifty")));
    bytes.extend_from_slice(&0u32.to_le_bytes());
    let info = decode_appinfo(&bytes).unwrap();
    assert_eq!(
        info.entries,
        vec![
            AppInfoEntry { app_id: 10, data: named("ten") },
            AppInfoEntry { app_id: 50, data: named("fifty") },
        ]
    );
}

#[test]
fn version_28_has_more_metadata() {
    let mut bytes = header(MAGIC_V28, 7);
    bytes.extend(record(5, 60, &named_bytes("five")));
    bytes.extend_from_slice(&0u32.to_le_bytes());
    let info = decode_appinfo(&bytes).unwrap();
    assert_eq!(info.magic, MAGIC_V28);
    assert_eq!(info.universe, 7);
    assert_eq!(info.entries, vec![AppInfoEntry { app_id: 5, data: named("five") }]);
    let mut short = header(MAGIC_V28, 7);
    short.extend(record(5, 40, &named_bytes("five")));
    assert_eq!(decode_appinfo(&short).unwrap().entries, vec![]);
}

#[test]
fn app_id_zero_ends_the_list() {
    let mut bytes = header(MAGIC_V27, 1);
    bytes.extend(record(10, 40, &named_bytes("ten")));
    bytes.extend_from_slice(&0u32.to_le_bytes());
    bytes.extend(record(20, 40, &named_bytes("twenty")));
    let info = decode_appinfo(&bytes).unwrap();
    assert_eq!(info.entries, vec![AppInfoEntry { app_id: 10, data: named("ten") }]);
}

#[test]
fn end_of_buffer_ends_the_list() {
    let mut bytes = header(MAGIC_V27, 1);
    bytes.extend(record(10, 40, &named_bytes("ten")));
    let complete = decode_appinfo(&bytes).unwrap();
    assert_eq!(complete.entries, vec![AppInfoEntry { app_id: 10, data: named("ten") }]);
    let mut cut = bytes.clone();
    cut.extend(record(20, 40, &named_bytes("twenty")));
    cut.truncate(cut.len() - 3);
    assert_eq!(decode_appinfo(&cut).unwrap().entries, complete.entries);
    let mut half_header = bytes.clone();
    half_header.extend_from_slice(&[20, 0, 0, 0, 9]);
    assert_eq!(decode_appinfo(&half_header).unwrap().entries, complete.entries);
}

#[test]
fn header_alone_holds_no_records() {
    assert_eq!(
        decode_appinfo(&header(MAGIC_V27, 3)),
        Ok(AppInfo { magic: MAGIC_V27, universe: 3, entries: vec![] })
    );
}

#[test]
fn unknown_magic_is_a_malformed_header() {
    assert_eq!(decode_appinfo(&header(0x0756_4429, 1)), Err(VdfError::MalformedHeader));
    assert_eq!(decode_appinfo(&header(0, 1)), Err(VdfError::MalformedHeader));
    assert_eq!(decode_appinfo(&[1, 2, 3, 4]), Err(VdfError::MalformedHeader));
}

#[test]
fn short_header_is_truncated() {
    assert_eq!(decode_appinfo(&[]), Err(VdfError::TruncatedInput));
    assert_eq!(decode_appinfo(&[0x27, 0x44, 0x56]), Err(VdfError::TruncatedInput));
    assert_eq!(decode_appinfo(&[0x27, 0x44, 0x56, 0x07]), Err(VdfError::TruncatedInput));
    assert_eq!(decode_appinfo(&[0x27, 0x44, 0x56, 0x07, 1, 0, 0]), Err(VdfError::TruncatedInput));
}

#[test]
fn record_is_read_behind_its_metadata() {
    let mut payload = vec![0u8; 4];
    payload.extend(named_bytes("x"));
    assert_eq!(decode_record(&payload, 4), Ok(named("x")));
    assert_eq!(decode_record(&payload, 5), Err(VdfError::UnknownTypeTag));
    assert_eq!(decode_record(&payload, 400), Err(VdfError::TruncatedInput));
    assert_eq!(decode_record(&payload, payload.len()), Err(VdfError::TruncatedInput));
}

#[test]
fn entries_are_keyed_by_their_app_id() {
    assert_eq!(AppInfoEntry { app_id: 730, data: named("cs") }.key(), "730");
    assert_eq!(AppInfoEntry { app_id: u32::MAX, data: named("max") }.key(), "4294967295");
}
