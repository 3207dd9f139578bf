use fanbox_dl_archive::text::{
    chars_of, decimal_text, is_hidden, is_text_le, join, read_decimal, Reading,
};

#[test]
fn hidden_names_begin_with_a_dot() {
    assert!(is_hidden(".git"));
    assert!(is_hidden("."));
    assert!(!is_hidden("a.b"));
    assert!(!is_hidden(""));
}

#[test]
fn chars_of_keeps_every_character() {
    assert_eq!(chars_of("a-é日"), vec!['a', '-', 'é', '日']);
    assert_eq!(chars_of(""), Vec::<char>::new());
}

#[test]
fn join_puts_the_second_behind_the_first() {
    assert_eq!(join("ab", "cd"), "abcd");
    assert_eq!(join("", "x"), "x");
}

#[test]
fn decimal_text_writes_without_leading_zeros() {
    assert_eq!(decimal_text(0), "0");
    assert_eq!(decimal_text(7), "7");
    assert_eq!(decimal_text(120), "120");
    assert_eq!(decimal_text(4294967295), "4294967295");
}

#[test]
fn read_decimal_reads_digits_only() {
    let chars = chars_of("0123yen");
    assert_eq!(read_decimal(&chars, 4), Reading::Value(123));
    assert_eq!(read_decimal(&chars, 0), Reading::NotANumber);
    assert_eq!(read_decimal(&chars, 5), Reading::NotANumber);
    assert_eq!(read_decimal(&chars_of("+5"), 2), Reading::NotANumber);
}

#[test]
fn read_decimal_finds_the_largest_price() {
    assert_eq!(read_decimal(&chars_of("4294967295"), 10), Reading::Value(4294967295));
    assert_eq!(read_decimal(&chars_of("4294967296"), 10), Reading::TooLarge);
    assert_eq!(read_decimal(&chars_of("99999999999999999999999999"), 26), Reading::TooLarge);
}

#[test]
fn byte_order_of_strings() {
    assert!(is_text_le("", ""));
    assert!(is_text_le("", "a"));
    assert!(!is_text_le("a", ""));
    assert!(is_text_le("Zed", "alice"));
    assert!(!is_text_le("alice", "Zed"));
    assert!(is_text_le("ab", "abc"));
    assert!(!is_text_le("abc", "ab"));
    assert!(is_text_le("abc", "abc"));
    assert!(is_text_le("z", "é"));
}

#[test]
fn byte_order_agrees_with_the_order_of_str() {
    let words = ["", "a", "B", "ab", "abc", "b", "é", "日本", "~", "Z"];
    for a in words {
        for b in words {
            assert_eq!(is_text_le(a, b), a <= b);
        }
    }
}
