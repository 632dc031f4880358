use sptl_spi::scan::{
    count_leading_spaces, digit_of, find, is_whitespace, matches_at, parse_u32, parse_u64,
    slice_of, split, split_at_first, split_lines, split_whitespace, starts_with, string_of,
    stripped_prefix, stripped_prefixes, stripped_trailing, trimmed, trimmed_end, trimmed_start,
    utf8_length_of,
};

fn chars(s: &str) -> Vec<char> {
    s.chars().collect()
}

fn text(v: &Vec<char>) -> String {
    v.iter().collect()
}

fn texts(v: &Vec<Vec<char>>) -> Vec<String> {
    v.iter().map(text).collect()
}

#[test]
fn string_of_and_slice_of_keep_the_characters() {
    assert_eq!(string_of(&chars("aτb")), "aτb");
    assert_eq!(string_of(&chars("")), "");
    assert_eq!(text(&slice_of(&chars("hello"), 1, 3)), "el");
    assert_eq!(text(&slice_of(&chars("hello"), 0, 5)), "hello");
    assert_eq!(text(&slice_of(&chars("hello"), 2, 2)), "");
}

#[test]
fn trimming_agrees_with_the_standard_library() {
    for s in ["", " ", "  a b  ", "\t\n x", "x \r\n", "\u{3000}wide\u{00a0}", "none", " \u{2003} "] {
        assert_eq!(text(&trimmed_start(&chars(s))), s.trim_start());
        assert_eq!(text(&trimmed_end(&chars(s))), s.trim_end());
        assert_eq!(text(&trimmed(&chars(s))), s.trim());
        assert_eq!(count_leading_spaces(&chars(s)), s.chars().count() - s.trim_start().chars().count());
    }
}

#[test]
fn finding_agrees_with_the_standard_library() {
    let cases = [
        ("alice says: foo", " says: "),
        ("aaa", "aa"),
        ("abc", ""),
        ("", ""),
        ("", "a"),
        ("abc", "abcd"),
        ("a → b → c", " → "),
        ("xyz", "z"),
        ("xyz", "q"),
        ("ab", "ab"),
    ];
    for (s, needle) in cases {
        let expected = s.find(needle).map(|byte| s[..byte].chars().count());
        assert_eq!(find(&chars(s), &chars(needle)), expected);
        assert_eq!(starts_with(&chars(s), &chars(needle)), s.starts_with(needle));
        let halves = split_at_first(&chars(s), &chars(needle)).map(|(a, b)| (text(&a), text(&b)));
        let expected = s.split_once(needle).map(|(a, b)| (a.to_string(), b.to_string()));
        assert_eq!(halves, expected);
        let rest = stripped_prefix(&chars(s), &chars(needle)).map(|r| text(&r));
        assert_eq!(rest, s.strip_prefix(needle).map(|r| r.to_string()));
    }
}

#[test]
fn matches_at_looks_at_one_place_only() {
    let s = chars("abcabc");
    assert!(matches_at(&s, &chars("abc"), 0));
    assert!(matches_at(&s, &chars("abc"), 3));
    assert!(!matches_at(&s, &chars("abc"), 1));
    assert!(!matches_at(&s, &chars("abc"), 4));
    assert!(matches_at(&s, &chars(""), 6));
    assert!(!matches_at(&s, &chars(""), 7));
    assert!(!matches_at(&s, &chars("c"), usize::MAX));
}

#[test]
fn a_prefix_is_stripped_as_often_as_it_stands() {
    for (s, p) in [("macro greet", "macro"), ("ifif x", "if"), ("at τ=at τ=7:", "at τ="), ("abc", "x"), ("aaa", "a"), ("abc", "")] {
        let expected = if p.is_empty() { s } else { s.trim_start_matches(p) };
        assert_eq!(text(&stripped_prefixes(&chars(s), &chars(p))), expected);
    }
}

#[test]
fn a_trailing_character_is_stripped_as_often_as_it_stands() {
    for s in ["always:", "x::", ":", "", "a:b", "::a"] {
        assert_eq!(text(&stripped_trailing(&chars(s), ':')), s.trim_end_matches(':'));
    }
}

#[test]
fn splitting_at_a_character_agrees_with_the_standard_library() {
    for s in ["a, b,c", "", ",", "a,", ",a", "no commas", ",,"] {
        let expected: Vec<String> = s.split(',').map(|p| p.to_string()).collect();
        assert_eq!(texts(&split(&chars(s), ',')), expected);
    }
}

#[test]
fn splitting_at_white_space_agrees_with_the_standard_library() {
    for s in ["alice 16 0.1", "  a\tb\n", "", "   ", "one", "a\u{3000}b"] {
        let expected: Vec<String> = s.split_whitespace().map(|p| p.to_string()).collect();
        assert_eq!(texts(&split_whitespace(&chars(s))), expected);
    }
}

#[test]
fn numbers_are_read_as_the_standard_library_reads_them() {
    let cases = [
        "0", "7", "007", "+5", "+", "", "-1", "-0", "1 ", " 1", "1_000", "12a", "a", "++1",
        "4294967295", "4294967296", "18446744073709551615", "18446744073709551616",
        "99999999999999999999999999", "0x10", "1.0", "٣",
    ];
    for s in cases {
        assert_eq!(parse_u64(&chars(s)), s.parse::<u64>().ok(), "{:?}", s);
        assert_eq!(parse_u32(&chars(s)), s.parse::<u32>().ok(), "{:?}", s);
    }
}

#[test]
fn digits_have_their_value() {
    assert_eq!(digit_of('0'), Some(0));
    assert_eq!(digit_of('9'), Some(9));
    assert_eq!(digit_of('a'), None);
    assert_eq!(digit_of('٣'), None);
}

#[test]
fn the_utf8_length_counts_bytes() {
    let s = "a\u{00a0}\u{3000}\u{1f600}z";
    let c = chars(s);
    assert_eq!(utf8_length_of(&c, 0), 0);
    assert_eq!(utf8_length_of(&c, 1), 1);
    assert_eq!(utf8_length_of(&c, 2), 3);
    assert_eq!(utf8_length_of(&c, 3), 6);
    assert_eq!(utf8_length_of(&c, 4), 10);
    assert_eq!(utf8_length_of(&c, 5), s.len());
}

#[test]
fn white_space_is_what_the_standard_library_calls_white_space() {
    let mut count = 0;
    for code in 0..=0x10ffffu32 {
        if let Some(c) = char::from_u32(code) {
            assert_eq!(is_whitespace(c), c.is_whitespace(), "U+{:04X}", code);
            if is_whitespace(c) {
                count += 1;
            }
        }
    }
    assert_eq!(count, 25);
}

#[test]
fn lines_are_what_the_standard_library_calls_lines() {
    let cases = [
        "", "a", "a\n", "a\nb", "a\n\nb", "\n", "\n\n", "a\r\nb", "a\r\n", "a\r", "\r", "\r\n",
        "a\r\r\nb", "a\n\rb", "a\rb\n", "\r\n\r\n", "\n\r", "x\r\n\ny\r", "τ\n  z  \n",
        "one\ntwo\r\nthree\n\n",
    ];
    for s in cases {
        let expected: Vec<String> = s.lines().map(|l| l.to_string()).collect();
        assert_eq!(texts(&split_lines(&chars(s))), expected, "{:?}", s);
    }
}
