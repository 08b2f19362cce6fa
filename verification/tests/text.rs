use micro_http::number::{decimal_chars, parse_i32_chars, parse_u64_chars, signed_decimal_chars};
use micro_http::string_map::StringMap;
use micro_http::text::{
    char_is_whitespace, chars_of, find_in, str_eq, to_ascii_lower_char, to_lower, trim_range,
};

fn chars(s: &str) -> Vec<char> {
    s.chars().collect()
}

fn text(chars: &[char]) -> String {
    chars.iter().collect()
}

#[test]
fn whitespace_is_that_of_unicode() {
    for code in 0..=0x10FFFFu32 {
        if let Some(c) = char::from_u32(code) {
            assert_eq!(char_is_whitespace(c), c.is_whitespace(), "U+{:04X}", code);
        }
    }
}

#[test]
fn ascii_letters_are_lowercased() {
    for code in 0..=0x10FFFFu32 {
        if let Some(c) = char::from_u32(code) {
            assert_eq!(to_ascii_lower_char(c), c.to_ascii_lowercase());
        }
    }
    assert_eq!(to_ascii_lower_char('A'), 'a');
    assert_eq!(to_ascii_lower_char('Z'), 'z');
    assert_eq!(to_ascii_lower_char('@'), '@');
    assert_eq!(to_ascii_lower_char('['), '[');
}

#[test]
fn lowercase_is_that_of_the_standard_library() {
    for s in ["", "Content-Type", "HOST", "already lower", "A1_B2", "\u{c9}cole", "\u{3a3}\u{391}\u{3a3}", "Stra\u{df}e", "\u{130}"] {
        assert_eq!(to_lower(s), s.to_lowercase());
    }
    assert_eq!(to_lower("X-Forwarded-For"), "x-forwarded-for");
}

#[test]
fn trimming_is_that_of_the_standard_library() {
    for s in ["", " ", "a", "  a b  ", "\t\r\n x \u{a0}\u{2003}", "\u{3000}", "x\u{b}", "\u{feff}x", "\u{200b}x "] {
        let v = chars(s);
        let (a, b) = trim_range(&v, 0, v.len());
        assert_eq!(text(&v[a..b]), s.trim());
    }
    let v = chars("ab  cd  ef");
    assert_eq!(trim_range(&v, 2, 8), (4, 6));
    assert_eq!(trim_range(&v, 2, 4), (4, 4));
}

#[test]
fn find_in_gives_the_first_occurrence() {
    let v = chars("a:b:c");
    assert_eq!(find_in(&v, 0, 5, ':'), 1);
    assert_eq!(find_in(&v, 2, 5, ':'), 3);
    assert_eq!(find_in(&v, 4, 5, ':'), 5);
    assert_eq!(find_in(&v, 0, 1, ':'), 1);
    assert_eq!(find_in(&v, 3, 3, ':'), 3);
}

#[test]
fn strings_are_compared_by_their_characters() {
    assert!(str_eq("", ""));
    assert!(str_eq("keep-alive", "keep-alive"));
    assert!(!str_eq("keep-alive", "keep-alivf"));
    assert!(!str_eq("a", "ab"));
    assert!(!str_eq("\u{e9}", "e"));
    assert_eq!(chars_of("h\u{e9}!"), vec!['h', '\u{e9}', '!']);
}

#[test]
fn decimal_is_that_of_the_standard_library() {
    for n in [0u64, 1, 9, 10, 11, 99, 100, 200, 404, 65535, 4294967295, 4294967296, u64::MAX - 1, u64::MAX] {
        assert_eq!(text(&decimal_chars(n)), n.to_string());
    }
    for i in [0i32, 1, -1, 9, -9, 10, -10, 12345, -12345, i32::MAX, i32::MIN, i32::MIN + 1] {
        assert_eq!(text(&signed_decimal_chars(i)), i.to_string());
    }
}

#[test]
fn parsing_numbers_is_that_of_the_standard_library() {
    let samples = [
        "", "0", "00", "007", "1", "+1", "-1", "+", "-", "++1", "+-1", "-+1", "--1", " 1", "1 ",
        "1a", "a1", "1_0", "0x10", "1.0", "1e3", "\u{661}", "\u{ff11}", "2147483647",
        "2147483648", "-2147483648", "-2147483649", "+2147483647", "+2147483648", "-0", "+0",
        "4294967295", "4294967296", "18446744073709551615", "18446744073709551616",
        "+18446744073709551615", "-18446744073709551615", "99999999999999999999",
        "000000000000000000000000000001", "184467440737095516150", "-00000000002147483648",
    ];
    for s in samples {
        let v = chars(s);
        assert_eq!(parse_u64_chars(&v), s.parse::<u64>().ok(), "{:?}", s);
        assert_eq!(parse_i32_chars(&v), s.parse::<i32>().ok(), "{:?}", s);
    }
}

#[test]
fn numbers_read_back() {
    for n in [0u64, 5, 10, 1234567890123, u64::MAX] {
        assert_eq!(parse_u64_chars(&decimal_chars(n)), Some(n));
    }
    for i in [0i32, 7, -7, i32::MAX, i32::MIN] {
        assert_eq!(parse_i32_chars(&signed_decimal_chars(i)), Some(i));
    }
}

#[test]
fn string_map_keeps_insertion_order_and_last_value() {
    let mut map = StringMap::new();
    assert_eq!(map.len(), 0);
    assert!(map.get("a").is_none());
    map.insert("a".to_string(), "1".to_string());
    map.insert("b".to_string(), "2".to_string());
    map.insert("a".to_string(), "3".to_string());
    map.insert("".to_string(), "4".to_string());
    assert_eq!(map.len(), 3);
    assert_eq!(map.key_at(0), "a");
    assert_eq!(map.value_at(0), "3");
    assert_eq!(map.key_at(1), "b");
    assert_eq!(map.value_at(1), "2");
    assert_eq!(map.key_at(2), "");
    assert_eq!(map.get("").unwrap(), "4");
    assert!(map.contains_key("b"));
    assert!(!map.contains_key("B"));
    let copy = map.clone();
    map.insert("b".to_string(), "5".to_string());
    assert_eq!(copy.get("b").unwrap(), "2");
    assert_eq!(map.get("b").unwrap(), "5");
    assert_eq!(copy.len(), 3);
}
