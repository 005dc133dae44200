use arlian_perimeter::order::smallest;
use arlian_perimeter::table::Table;
use arlian_perimeter::text::{
    contains_char, contains_text, decimal, hex_of_bytes, hexadecimal, parse_unsigned, same_text,
    split_text, stamped_line, wide_decimal, with_number, with_text,
};
use arlian_perimeter::words::{
    has_byte_len, has_text, is_blank, join_texts, lines_of, list_to_text, starts_with_text,
    trim_text, words_of,
};

#[test]
fn numerals() {
    assert_eq!(decimal(0), "0");
    assert_eq!(decimal(18_446_744_073_709_551_615), "18446744073709551615");
    assert_eq!(wide_decimal(100_000_000_000_000_000_000), "100000000000000000000");
    assert_eq!(hexadecimal(0xbeef), "beef");
    assert_eq!(hex_of_bytes(&vec![0, 15, 255]), "000fff");
    assert_eq!(parse_unsigned("42", 255), Some(42));
    assert_eq!(parse_unsigned("+42", 255), Some(42));
    assert_eq!(parse_unsigned("256", 255), None);
    assert_eq!(parse_unsigned("", 255), None);
    assert_eq!(parse_unsigned("+", 255), None);
    assert_eq!(parse_unsigned("-1", 255), None);
    assert_eq!(parse_unsigned("00007", 255), Some(7));
}

#[test]
fn pieces_of_text() {
    assert_eq!(split_text("a,b,,c", ','), ["a", "b", "", "c"]);
    assert_eq!(split_text("", ','), [""]);
    assert!(same_text("да", "да") && !same_text("да", "нет"));
    assert!(contains_char("a:b", ':') && !contains_char("ab", ':'));
    assert!(contains_text(&vec!["a".to_string(), "b".to_string()], "b"));
    assert_eq!(with_number("n=", 7), "n=7");
    assert_eq!(with_text("a", "b"), "ab");
    assert_eq!(stamped_line("now", "done"), "[now] done");
}

#[test]
fn words_agree_with_std() {
    for s in ["", "  ", "a", " a  b\tc\n", "один\u{a0}два\u{3000}три ", "x\u{200b}y", "\u{85}z"] {
        let expected: Vec<String> = s.split_whitespace().map(str::to_string).collect();
        assert_eq!(words_of(s), expected);
        assert_eq!(trim_text(s), s.trim());
        assert_eq!(is_blank(s), s.trim().is_empty());
    }
}

#[test]
fn lines_agree_with_std() {
    for s in ["", "\n", "a", "a\n", "a\r\nb", "a\n\nb\r", "\r\n", "a\r\r\nb\n"] {
        let expected: Vec<String> = s.lines().map(str::to_string).collect();
        assert_eq!(lines_of(s), expected);
    }
}

#[test]
fn texts_within_texts() {
    assert!(has_text("port_scan:22", "scan"));
    assert!(has_text("abc", ""));
    assert!(!has_text("ab", "abc"));
    assert!(starts_with_text("genkey 5", "genkey"));
    assert!(!starts_with_text("gen", "genkey"));
    assert!(has_byte_len("aa:bb:cc:dd:ee:ff", 17));
    assert!(!has_byte_len("aa:bb:cc:dd:ee:fя", 17));
    assert!(has_byte_len("яя", 4));
    assert!(has_byte_len("😀", 4));
}

#[test]
fn lists_as_text() {
    assert_eq!(list_to_text(&vec![]), "[]");
    assert_eq!(list_to_text(&vec![80, 443]), "[80, 443]");
    let parts = vec!["a".to_string(), "b".to_string(), "c".to_string()];
    assert_eq!(join_texts(&parts, ", "), "a, b, c");
    assert_eq!(join_texts(&vec![], ", "), "");
}

#[test]
fn smallest_numbers() {
    assert_eq!(smallest(&vec![5, 1, 4, 2], 3), [1, 3, 2]);
    assert_eq!(smallest(&vec![7, 7, 7], 2), [0, 1]);
    assert_eq!(smallest(&vec![3], 0).len(), 0);
}

#[test]
fn tables() {
    let mut t: Table<String, u64> = Table::new();
    assert_eq!(t.len(), 0);
    t.insert("a".to_string(), 1);
    t.insert("b".to_string(), 2);
    t.insert("a".to_string(), 3);
    assert_eq!(t.len(), 2);
    assert_eq!(t.get(&"a".to_string()), Some(&3));
    assert!(t.contains(&"b".to_string()));
    assert_eq!(t.remove(&"a".to_string()), Some(3));
    assert_eq!(t.remove(&"a".to_string()), None);
    assert_eq!(t.into_values(), [2]);
}
