use sdmm::text::{
    decimal_text, find_from, find_last, matches_at, nth_segment, parse_number, range_contains,
    same_text,
};

#[test]
fn segments_are_cut_at_every_separator() {
    let s = "a/bc//d";
    assert_eq!(nth_segment(s, '/', 0), Some((0, 1)));
    assert_eq!(nth_segment(s, '/', 1), Some((2, 4)));
    assert_eq!(nth_segment(s, '/', 2), Some((5, 5)));
    assert_eq!(nth_segment(s, '/', 3), Some((6, 7)));
    assert_eq!(nth_segment(s, '/', 4), None);
    assert_eq!(nth_segment("", '/', 0), Some((0, 0)));
    assert_eq!(nth_segment("", '/', 1), None);
    assert_eq!(nth_segment("x/", '/', 1), Some((2, 2)));
}

#[test]
fn segments_count_characters_not_bytes() {
    let s = "\u{e9}t\u{e9}/\u{1F600}x/z";
    assert_eq!(nth_segment(s, '/', 1), Some((4, 6)));
    assert_eq!(nth_segment(s, '/', 2), Some((7, 8)));
}

#[test]
fn find_from_gives_first_position_or_length() {
    assert_eq!(find_from("a?b?c", '?', 0), 1);
    assert_eq!(find_from("a?b?c", '?', 2), 3);
    assert_eq!(find_from("a?b?c", '?', 4), 5);
    assert_eq!(find_from("", '?', 0), 0);
}

#[test]
fn find_last_gives_last_position() {
    assert_eq!(find_last("a/b/c", '/'), Some(3));
    assert_eq!(find_last("/abc", '/'), Some(0));
    assert_eq!(find_last("abc", '/'), None);
    assert_eq!(find_last("", '/'), None);
}

#[test]
fn patterns_are_found_inside_a_range() {
    assert!(range_contains("host-nexus-cdn.example", 0, 22, "nexus-cdn"));
    assert!(!range_contains("host-nexus-cdn.example", 0, 13, "nexus-cdn"));
    assert!(range_contains("host-nexus-cdn.example", 5, 14, "nexus-cdn"));
    assert!(!range_contains("host-nexus-cdn.example", 6, 22, "nexus-cdn"));
    assert!(range_contains("abc", 1, 1, ""));
    assert!(!range_contains("abc", 0, 3, "abcd"));
    assert!(matches_at("abcdef", "cd", 2));
    assert!(!matches_at("abcdef", "cd", 3));
}

#[test]
fn texts_compare_by_their_characters() {
    assert!(same_text("zip", "zip"));
    assert!(!same_text("zip", "zi"));
    assert!(!same_text("zip", "ziq"));
    assert!(same_text("", ""));
}

#[test]
fn numbers_are_read_in_base_ten() {
    assert_eq!(parse_number("1234", 0, 4), Some(1234));
    assert_eq!(parse_number("x1234y", 1, 5), Some(1234));
    assert_eq!(parse_number("+12", 0, 3), Some(12));
    assert_eq!(parse_number("007", 0, 3), Some(7));
    assert_eq!(parse_number("0", 0, 1), Some(0));
    assert_eq!(parse_number("", 0, 0), None);
    assert_eq!(parse_number("+", 0, 1), None);
    assert_eq!(parse_number("-1", 0, 2), None);
    assert_eq!(parse_number("12a", 0, 3), None);
    assert_eq!(parse_number("1 2", 0, 3), None);
    assert_eq!(parse_number("18446744073709551615", 0, 20), Some(u64::MAX));
    assert_eq!(parse_number("18446744073709551616", 0, 20), None);
    assert_eq!(parse_number("99999999999999999999", 0, 20), None);
    assert_eq!(parse_number("184467440737095516150", 0, 21), None);
}

#[test]
fn numbers_are_written_in_base_ten() {
    assert_eq!(decimal_text(0), "0");
    assert_eq!(decimal_text(7), "7");
    assert_eq!(decimal_text(10), "10");
    assert_eq!(decimal_text(2400), "2400");
    assert_eq!(decimal_text(1234567890), "1234567890");
    assert_eq!(decimal_text(u64::MAX), "18446744073709551615");
}

#[test]
fn written_numbers_read_back() {
    for n in [0u64, 1, 9, 10, 99, 100, 2400, 65535, u64::MAX - 1, u64::MAX] {
        let text = decimal_text(n);
        assert_eq!(parse_number(&text, 0, text.len()), Some(n));
    }
}
