use habu::text::{integer_text, join_text, parse_i64, repeat_text, same_text, spaces};

#[test]
fn integers_are_written_in_decimal() {
    assert_eq!(integer_text(0), "0");
    assert_eq!(integer_text(7), "7");
    assert_eq!(integer_text(1230), "1230");
    assert_eq!(integer_text(-45), "-45");
    assert_eq!(integer_text(i64::MAX), i64::MAX.to_string());
    assert_eq!(integer_text(i64::MIN), "-9223372036854775808");
}

#[test]
fn integers_are_read_as_str_parse_reads_them() {
    for s in [
        "0", "42", "-7", "+5", "007", "-0", "", "-", "+", "12a", " 1", "1.5",
        "9223372036854775807", "9223372036854775808", "-9223372036854775808",
        "-9223372036854775809", "123456789012345678901234567890",
    ] {
        assert_eq!(parse_i64(s), s.parse::<i64>().ok(), "reading {:?}", s);
    }
}

#[test]
fn integer_text_reads_back() {
    for n in [0i64, 1, -1, 99, -100, 123456789, i64::MAX, i64::MIN] {
        assert_eq!(parse_i64(&integer_text(n)), Some(n));
    }
}

#[test]
fn text_helpers() {
    assert_eq!(spaces(3), "   ");
    assert_eq!(repeat_text("ab", 3), "ababab");
    assert_eq!(repeat_text("ab", 0), "");
    assert_eq!(join_text(&vec!["a".to_string(), "b".to_string(), "c".to_string()], ", "), "a, b, c");
    assert_eq!(join_text(&vec![], ", "), "");
    assert!(same_text("abc", "abc"));
    assert!(!same_text("abc", "abd"));
    assert!(!same_text("ab", "abc"));
}
