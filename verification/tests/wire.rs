use steam_art_manager::wire::{
    i32_from_bits, i32_to_bits, push_i32, push_u32, push_u64, u32_from_le_bytes,
};

#[test]
fn four_bytes_make_a_number() {
    assert_eq!(u32_from_le_bytes(0x78, 0x56, 0x34, 0x12), 0x12345678);
    assert_eq!(u32_from_le_bytes(0, 0, 0, 0), 0);
    assert_eq!(u32_from_le_bytes(0xff, 0xff, 0xff, 0xff), u32::MAX);
    assert_eq!(u32_from_le_bytes(0, 1, 0, 0), 256);
}

#[test]
fn numbers_are_pushed_little_endian() {
    let mut out = Vec::new();
    push_u32(&mut out, 0x12345678);
    assert_eq!(out, vec![0x78, 0x56, 0x34, 0x12]);
    push_u64(&mut out, 1 << 40);
    assert_eq!(out[4..], [0, 0, 0, 0, 0, 1, 0, 0]);
    let mut out = Vec::new();
    push_i32(&mut out, -1);
    assert_eq!(out, vec![0xff; 4]);
}

#[test]
fn signed_numbers_share_their_bits() {
    assert_eq!(i32_from_bits(0), 0);
    assert_eq!(i32_from_bits(0x7fff_ffff), i32::MAX);
    assert_eq!(i32_from_bits(0x8000_0000), i32::MIN);
    assert_eq!(i32_from_bits(u32::MAX), -1);
    assert_eq!(i32_to_bits(-1), u32::MAX);
    assert_eq!(i32_to_bits(i32::MIN), 0x8000_0000);
    assert_eq!(i32_to_bits(730), 730);
    assert_eq!(i32_to_bits(-1505400000), 2789567296);
}
