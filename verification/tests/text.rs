use gitty::text::{
    chars_of, decimal_string, find, is_space, owned, same_chars, split_lines, to_u32, trimmed,
};

fn lines_of(text: &str) -> Vec<String> {
    let chars = chars_of(text);
    split_lines(&chars).iter().map(|line| line.iter().collect::<String>()).collect()
}

fn number(text: &str) -> Option<u32> {
    to_u32(&chars_of(text))
}

fn trim(text: &str) -> String {
    trimmed(&chars_of(text)).iter().collect()
}

#[test]
fn chars_are_unicode_scalar_values() {
    assert_eq!(chars_of("a|é\n"), vec!['a', '|', 'é', '\n']);
    assert_eq!(chars_of(""), Vec::<char>::new());
}

#[test]
fn white_space_is_what_std_calls_white_space() {
    let mut code: u32 = 0;
    while code <= 0x11_0000 {
        if let Some(c) = char::from_u32(code) {
            assert_eq!(is_space(c), c.is_whitespace(), "code point {code:#x}");
        }
        code += 1;
    }
}

#[test]
fn trimming_takes_white_space_from_both_ends_only() {
    assert_eq!(trim("  a b \t\n"), "a b");
    assert_eq!(trim("\u{3000}x\u{a0}"), "x");
    assert_eq!(trim(" \t "), "");
    assert_eq!(trim(""), "");
    assert_eq!(trim("abc"), "abc");
}

#[test]
fn trimming_agrees_with_std() {
    for text in ["", " ", "  12\tAlice  ", "\r\nx\r\n", "a", "\u{2003}a\u{2003}b\u{2003}"] {
        assert_eq!(trim(text), text.trim());
    }
}

#[test]
fn find_gives_the_first_position() {
    assert_eq!(find(&chars_of("a|b|c"), '|'), Some(1));
    assert_eq!(find(&chars_of("|"), '|'), Some(0));
    assert_eq!(find(&chars_of("abc"), '|'), None);
    assert_eq!(find(&chars_of(""), '|'), None);
}

#[test]
fn find_counts_characters_not_bytes() {
    assert_eq!(find(&chars_of("éé|x"), '|'), Some(2));
}

#[test]
fn same_chars_compares_length_and_content() {
    assert!(same_chars(&chars_of("Alice"), &chars_of("Alice")));
    assert!(!same_chars(&chars_of("Alice"), &chars_of("alice")));
    assert!(!same_chars(&chars_of("Alice"), &chars_of("Alice ")));
    assert!(same_chars(&chars_of(""), &chars_of("")));
}

#[test]
fn lines_end_at_line_feeds() {
    assert_eq!(lines_of("a\nb\nc"), vec!["a", "b", "c"]);
    assert_eq!(lines_of("a\nb\n"), vec!["a", "b"]);
    assert_eq!(lines_of("a\n\nb"), vec!["a", "", "b"]);
    assert_eq!(lines_of("\n"), vec![""]);
    assert_eq!(lines_of(""), Vec::<String>::new());
}

#[test]
fn lines_drop_a_carriage_return_before_a_line_feed_only() {
    assert_eq!(lines_of("a\r\nb"), vec!["a", "b"]);
    assert_eq!(lines_of("a\rb\n"), vec!["a\rb"]);
    assert_eq!(lines_of("a\r"), vec!["a\r"]);
    assert_eq!(lines_of("a\r\r\n"), vec!["a\r"]);
}

#[test]
fn lines_agree_with_std() {
    for text in ["", "\n", "\r\n", "a", "a\n", "a\r\n\r\nb\r", "x\n\n\n", "\n\nx", "é\nü"] {
        let expected: Vec<String> = text.lines().map(String::from).collect();
        assert_eq!(lines_of(text), expected, "text {text:?}");
    }
}

#[test]
fn numbers_are_decimal_digits_after_at_most_one_plus() {
    assert_eq!(number("0"), Some(0));
    assert_eq!(number("42"), Some(42));
    assert_eq!(number("+42"), Some(42));
    assert_eq!(number("007"), Some(7));
    assert_eq!(number(""), None);
    assert_eq!(number("+"), None);
    assert_eq!(number("++1"), None);
    assert_eq!(number("-1"), None);
    assert_eq!(number("1 "), None);
    assert_eq!(number("12a"), None);
    assert_eq!(number("٣"), None);
}

#[test]
fn numbers_above_the_largest_are_none() {
    assert_eq!(number("4294967295"), Some(u32::MAX));
    assert_eq!(number("4294967296"), None);
    assert_eq!(number("99999999999999999999999999"), None);
    assert_eq!(number("00000000004294967295"), Some(u32::MAX));
}

#[test]
fn numbers_agree_with_std() {
    for text in ["", "+", "-", "+0", "-0", "1", "4294967295", "4294967296", "1_0", "0x10", " 1"] {
        assert_eq!(number(text), text.parse::<u32>().ok(), "text {text:?}");
    }
}

#[test]
fn decimal_notation_has_no_leading_zeros() {
    assert_eq!(decimal_string(0), "0");
    assert_eq!(decimal_string(7), "7");
    assert_eq!(decimal_string(10), "10");
    assert_eq!(decimal_string(4_294_967_295), "4294967295");
}

#[test]
fn decimal_notation_reads_back_as_the_number() {
    for n in [0, 1, 9, 10, 99, 100, 12_345, u32::MAX - 1, u32::MAX] {
        assert_eq!(number(&decimal_string(n)), Some(n));
        assert_eq!(decimal_string(n), n.to_string());
    }
}

#[test]
fn owned_copies_each_text() {
    assert_eq!(owned(&["log", "", "main"]), vec!["log", "", "main"]);
    assert_eq!(owned(&[]), Vec::<String>::new());
}
