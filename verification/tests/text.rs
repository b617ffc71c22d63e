use steam_art_manager::text::{chars_of, decimal_string, join_path, normalize_separators};

#[test]
fn separators_are_normalized() {
    assert_eq!(normalize_separators("C:\\Program Files\\Steam"), "C:/Program Files/Steam");
    assert_eq!(normalize_separators("/already/fine"), "/already/fine");
    assert_eq!(normalize_separators(""), "");
    assert_eq!(normalize_separators("\\"), "/");
}

#[test]
fn paths_are_joined() {
    assert_eq!(join_path("/grids", "100.png"), "/grids/100.png");
    assert_eq!(join_path("/grids/", "100.png"), "/grids/100.png");
    assert_eq!(join_path("", "100.png"), "100.png");
    assert_eq!(join_path("/grids", "/abs.png"), "/abs.png");
    assert_eq!(join_path("/grids", ""), "/grids/");
}

#[test]
fn numbers_are_written_in_decimal() {
    assert_eq!(decimal_string(0), "0");
    assert_eq!(decimal_string(7), "7");
    assert_eq!(decimal_string(730), "730");
    assert_eq!(decimal_string(4294967295), "4294967295");
    assert_eq!(decimal_string(u64::MAX), "18446744073709551615");
}

#[test]
fn chars_are_listed_in_order() {
    assert_eq!(chars_of("héllo"), vec!['h', 'é', 'l', 'l', 'o']);
    assert_eq!(chars_of(""), Vec::<char>::new());
}
