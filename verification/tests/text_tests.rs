use minimercado::text::{chars_of, decimal_string, parse_i32, same_text, trim_string};
use minimercado::sale::parse_entry;

#[test]
fn decimal_of_numbers() {
    assert_eq!(decimal_string(0), "0");
    assert_eq!(decimal_string(7), "7");
    assert_eq!(decimal_string(120), "120");
    assert_eq!(decimal_string(-45), "-45");
    assert_eq!(decimal_string(i32::MIN as i64), "-2147483648");
    assert_eq!(decimal_string(u32::MAX as i64), "4294967295");
}

#[test]
fn parse_accepts_what_std_accepts() {
    for s in ["0", "12", "+12", "-12", "007", "2147483647", "-2147483648"] {
        assert_eq!(parse_i32(s), s.parse::<i32>().ok(), "{}", s);
    }
}

#[test]
fn parse_rejects_what_std_rejects() {
    for s in ["", "+", "-", " 1", "1 ", "1_0", "abc", "2147483648", "-2147483649", "12x", "99999999999999999999"] {
        assert_eq!(parse_i32(s), None, "{}", s);
        assert!(s.parse::<i32>().is_err());
    }
}

#[test]
fn parse_reads_back_decimal() {
    for n in [0, 1, -1, 42, -300, i32::MAX, i32::MIN] {
        assert_eq!(parse_i32(&decimal_string(n as i64)), Some(n));
    }
}

#[test]
fn trim_matches_std() {
    for s in ["  Leche ", "\tpan\n", "", "   ", "a b", "\u{3000}x\u{A0}", " \u{2003}y"] {
        assert_eq!(trim_string(s), s.trim(), "{:?}", s);
    }
}

#[test]
fn same_text_compares_characters() {
    assert!(same_text("admin", "admin"));
    assert!(!same_text("admin", "Admin"));
    assert!(!same_text("admin", "admi"));
    assert_eq!(chars_of("añ"), vec!['a', 'ñ']);
}

#[test]
fn entry_with_quantity() {
    assert_eq!(parse_entry("3x Leche"), (3, "Leche".to_string()));
    assert_eq!(parse_entry("10x  Pan  "), (10, "Pan".to_string()));
}

#[test]
fn entry_without_quantity() {
    assert_eq!(parse_entry("Leche"), (1, "Leche".to_string()));
}

#[test]
fn entry_with_unreadable_quantity() {
    assert_eq!(parse_entry("3 x Leche"), (1, "Leche".to_string()));
    assert_eq!(parse_entry("Pixel"), (1, "el".to_string()));
    assert_eq!(parse_entry("-2xPan"), (-2, "Pan".to_string()));
}
