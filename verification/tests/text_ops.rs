use trash_rs::text::{contains_char, decimal, pad_right, substring, text_eq};

#[test]
fn decimal_renders_numbers() {
    assert_eq!(decimal(0), b"0".to_vec());
    assert_eq!(decimal(7), b"7".to_vec());
    assert_eq!(decimal(1234), b"1234".to_vec());
    assert_eq!(decimal(u64::MAX), u64::MAX.to_string().into_bytes());
}

#[test]
fn decimal_renderings_differ() {
    assert_ne!(decimal(10), decimal(1));
    assert_ne!(decimal(12), decimal(21));
}

#[test]
fn pad_right_pads_to_width() {
    assert_eq!(pad_right("Name", 10), "Name      ");
    assert_eq!(pad_right("Date Modified", 10), "Date Modified");
    assert_eq!(pad_right("", 3), "   ");
    assert_eq!(pad_right("é", 3), "é  ");
}

#[test]
fn pad_right_agrees_with_format() {
    for x in ["", "a", "abcdefghij", "abcdefghijk", "ünïcödé"] {
        assert_eq!(pad_right(x, 10), format!("{0: <10}", x));
    }
}

#[test]
fn small_string_helpers() {
    assert_eq!(substring("hello", 1, 3), "el");
    assert!(text_eq("abc", "abc"));
    assert!(!text_eq("abc", "abd"));
    assert!(!text_eq("abc", "ab"));
    assert!(contains_char("-cd", 'c'));
    assert!(!contains_char("-o", 'c'));
}

