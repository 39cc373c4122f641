use markdown_ast::text::{byte_count, byte_slice, chars_of, count_run, find_char, is_digit_char};
use markdown_ast::text::{is_space_char, split_chars, split_lines, string_of, string_of_range};
use markdown_ast::text::{trim_chars, trim_range};

fn chars(s: &str) -> Vec<char> {
    s.chars().collect()
}

#[test]
fn white_space_is_what_std_calls_white_space() {
    for code in 0..=0x10FFFFu32 {
        if let Some(c) = char::from_u32(code) {
            assert_eq!(is_space_char(c), c.is_whitespace(), "U+{:04X}", code);
            assert_eq!(is_digit_char(c), c.is_ascii_digit(), "U+{:04X}", code);
        }
    }
}

#[test]
fn trimming() {
    assert_eq!(trim_chars(&chars("  a b \t\r\n")), chars("a b"));
    assert_eq!(trim_chars(&chars("\u{3000}a\u{a0}")), chars("a"));
    assert_eq!(trim_chars(&chars("   ")), chars(""));
    assert_eq!(trim_chars(&chars("")), chars(""));
    assert_eq!(trim_chars(&chars("ab")), chars("ab"));
    assert_eq!(trim_range(&chars("x  a  y"), 1, 6), chars("a"));
}

#[test]
fn splitting() {
    assert_eq!(split_chars(&chars("a|b||c"), '|'), vec![chars("a"), chars("b"), chars(""), chars("c")]);
    assert_eq!(split_chars(&chars(""), '|'), vec![chars("")]);
    assert_eq!(split_chars(&chars("|"), '|'), vec![chars(""), chars("")]);
    assert_eq!(split_chars(&chars("abc"), '|'), vec![chars("abc")]);
}

#[test]
fn lines() {
    assert_eq!(split_lines(""), Vec::<Vec<char>>::new());
    assert_eq!(split_lines("a"), vec![chars("a")]);
    assert_eq!(split_lines("a\n"), vec![chars("a")]);
    assert_eq!(split_lines("a\nb"), vec![chars("a"), chars("b")]);
    assert_eq!(split_lines("a\n\n"), vec![chars("a"), chars("")]);
    assert_eq!(split_lines("\n"), vec![chars("")]);
    assert_eq!(split_lines("a\r\nb"), vec![chars("a\r"), chars("b")]);
}

#[test]
fn runs_and_searches() {
    assert_eq!(count_run(&chars("###a#"), 0, '#'), 3);
    assert_eq!(count_run(&chars("###a#"), 3, '#'), 3);
    assert_eq!(count_run(&chars("###"), 1, '#'), 3);
    assert_eq!(find_char(&chars("a:b:c"), 0, ':'), 1);
    assert_eq!(find_char(&chars("a:b:c"), 2, ':'), 3);
    assert_eq!(find_char(&chars("abc"), 0, ':'), 3);
}

#[test]
fn strings_and_characters() {
    assert_eq!(chars_of("héllo"), chars("héllo"));
    assert_eq!(string_of(&chars("héllo")), "héllo");
    assert_eq!(string_of_range(&chars("héllo"), 1, 3), "él");
}

#[test]
fn slices_by_bytes() {
    assert_eq!(byte_count("héllo"), 6);
    assert_eq!(byte_slice("héllo", 0, 3), Some("hé"));
    assert_eq!(byte_slice("héllo", 3, 6), Some("llo"));
    assert_eq!(byte_slice("héllo", 3, 3), Some(""));
    assert_eq!(byte_slice("héllo", 2, 3), None);
    assert_eq!(byte_slice("héllo", 0, 2), None);
    assert_eq!(byte_slice("héllo", 4, 3), None);
    assert_eq!(byte_slice("héllo", 0, 7), None);
}
