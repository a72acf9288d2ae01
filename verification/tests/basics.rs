use site::number::parse_i32;
use site::order::stable_order;
use site::table::Table;
use site::text::{contains, same_text};

#[test]
fn numbers_are_read() {
    assert_eq!(parse_i32("0"), Some(0));
    assert_eq!(parse_i32("-0012"), Some(-12));
    assert_eq!(parse_i32("+2147483647"), Some(i32::MAX));
    assert_eq!(parse_i32("-2147483648"), Some(i32::MIN));
    assert_eq!(parse_i32("-2147483649"), None);
    assert_eq!(parse_i32("99999999999999999999999"), None);
    assert_eq!(parse_i32("--1"), None);
    assert_eq!(parse_i32("1 "), None);
}

#[test]
fn equal_keys_keep_their_order() {
    assert_eq!(stable_order(&vec![3u128, 1, 2, 1, 3]), [1, 3, 2, 0, 4]);
    let texts: Vec<Vec<char>> = ["b", "ab", "a", "", "b"]
        .iter()
        .map(|text| text.chars().collect())
        .collect();
    assert_eq!(stable_order(&texts), [3, 2, 1, 0, 4]);
    assert_eq!(stable_order::<u128>(&vec![]), Vec::<usize>::new());
}

#[test]
fn texts_are_searched() {
    assert!(contains("a../b", "../"));
    assert!(!contains("a..b", "../"));
    assert!(contains("", ""));
    assert!(same_text("\u{e9}", "\u{e9}"));
    assert!(!same_text("a", "ab"));
}

#[test]
fn tables_hold_one_value_under_each_key() {
    let mut table: Table<String, u32> = Table::new();
    *table.entry("a".to_string(), 1) += 10;
    *table.entry("b".to_string(), 2) += 10;
    *table.entry("a".to_string(), 3) += 10;
    assert_eq!(table.get(&"a".to_string()), Some(&21));
    assert_eq!(table.get(&"b".to_string()), Some(&12));
    assert_eq!(table.get(&"c".to_string()), None);
    assert_eq!(table.keys, ["a", "b"]);
}
