use marko::math::replace_all;
use marko::text::{
    chars_of, contains_char, find_char, find_text, format_number, is_ws, join, parse_number,
    repeat_char, repeat_text, rfind_char, same_str, slice, split_lines, split_on, string_of,
    trim, trim_end, trim_start,
};

fn c(s: &str) -> Vec<char> {
    s.chars().collect()
}

fn s(v: &[char]) -> String {
    v.iter().collect()
}

fn strings(v: Vec<Vec<char>>) -> Vec<String> {
    v.iter().map(|x| s(x)).collect()
}

#[test]
fn strings_and_characters_convert_both_ways() {
    assert_eq!(chars_of("héllo"), vec!['h', 'é', 'l', 'l', 'o']);
    assert_eq!(string_of(&c("héllo")), "héllo");
    assert!(same_str("a", "a"));
    assert!(!same_str("a", "ab"));
}

#[test]
fn whitespace_is_the_unicode_set() {
    for ch in [' ', '\t', '\n', '\r', '\u{b}', '\u{c}', '\u{85}', '\u{a0}', '\u{1680}',
        '\u{2000}', '\u{200a}', '\u{2028}', '\u{2029}', '\u{202f}', '\u{205f}', '\u{3000}'] {
        assert!(is_ws(ch), "{:?}", ch);
        assert!(ch.is_whitespace());
    }
    for ch in ['a', '\u{200b}', '\u{180e}', '\u{feff}', '\u{8}', '\u{e}'] {
        assert!(!is_ws(ch), "{:?}", ch);
        assert!(!ch.is_whitespace());
    }
}

#[test]
fn whitespace_agrees_with_the_standard_library_everywhere() {
    for code in 0..=0x10ffffu32 {
        if let Some(ch) = char::from_u32(code) {
            assert_eq!(is_ws(ch), ch.is_whitespace(), "U+{:04X}", code);
        }
    }
}

#[test]
fn trimming() {
    assert_eq!(s(&trim_start(&c("  a b  "))), "a b  ");
    assert_eq!(s(&trim_end(&c("  a b  "))), "  a b");
    assert_eq!(s(&trim(&c("\t a b \n"))), "a b");
    assert_eq!(s(&trim(&c("   "))), "");
    assert_eq!(s(&trim(&c(""))), "");
}

#[test]
fn searching() {
    assert_eq!(find_char(&c("a.b.c"), '.', 0), Some(1));
    assert_eq!(find_char(&c("a.b.c"), '.', 2), Some(3));
    assert_eq!(find_char(&c("a.b.c"), '.', 4), None);
    assert_eq!(find_char(&c("abc"), 'a', 9), None);
    assert_eq!(rfind_char(&c("a.b.c"), '.', 5), Some(3));
    assert_eq!(rfind_char(&c("a.b.c"), '.', 3), Some(1));
    assert_eq!(rfind_char(&c("a.b.c"), '.', 1), None);
    assert_eq!(find_text(&c("abcabc"), &c("bc"), 0), Some(1));
    assert_eq!(find_text(&c("abcabc"), &c("bc"), 2), Some(4));
    assert_eq!(find_text(&c("abcabc"), &c("bc"), 5), None);
    assert_eq!(find_text(&c("abc"), &c(""), 3), Some(3));
    assert_eq!(find_text(&c("abc"), &c("abcd"), 0), None);
    assert!(contains_char(&c("a|b"), '|'));
    assert!(!contains_char(&c("ab"), '|'));
    assert_eq!(s(&slice(&c("abcdef"), 2, 4)), "cd");
}

#[test]
fn splitting_and_joining() {
    assert_eq!(strings(split_on(&c("a|b||c"), '|')), vec!["a", "b", "", "c"]);
    assert_eq!(strings(split_on(&c(""), '|')), vec![""]);
    assert_eq!(strings(split_on(&c("|"), '|')), vec!["", ""]);
    assert_eq!(strings(split_lines(&c("a\nb\r\n\nc"))), vec!["a", "b", "", "c"]);
    assert_eq!(strings(split_lines(&c("a\n"))), vec!["a"]);
    assert_eq!(strings(split_lines(&c("a\r"))), vec!["a\r"]);
    assert_eq!(strings(split_lines(&c("\n"))), vec![""]);
    assert!(split_lines(&c("")).is_empty());
    assert_eq!(s(&join(&vec![c("a"), c(""), c("b")], &c(", "))), "a, , b");
    assert_eq!(s(&join(&Vec::new(), &c(", "))), "");
    assert_eq!(s(&join(&vec![c("a")], &c(", "))), "a");
}

#[test]
fn split_lines_agrees_with_the_standard_library() {
    for text in ["", "a", "a\n", "a\nb", "a\r\nb\r\n", "\n\n", "a\r", "\r\n", "a\n\rb", "x\r\r\n"] {
        let expected: Vec<String> = text.lines().map(String::from).collect();
        assert_eq!(strings(split_lines(&c(text))), expected, "{:?}", text);
    }
}

#[test]
fn repeating() {
    assert_eq!(s(&repeat_char('-', 3)), "---");
    assert_eq!(s(&repeat_char('-', 0)), "");
    assert_eq!(s(&repeat_text(&c("ab"), 3)), "ababab");
}

#[test]
fn numbers() {
    assert_eq!(s(&format_number(0)), "0");
    assert_eq!(s(&format_number(7)), "7");
    assert_eq!(s(&format_number(1234567890)), "1234567890");
    assert_eq!(s(&format_number(u128::MAX)), u128::MAX.to_string());
    assert_eq!(parse_number(&c("0")), Some(0));
    assert_eq!(parse_number(&c("007")), Some(7));
    assert_eq!(parse_number(&c("+42")), Some(42));
    assert_eq!(parse_number(&c("18446744073709551615")), Some(u64::MAX));
    assert_eq!(parse_number(&c("18446744073709551616")), None);
    assert_eq!(parse_number(&c("99999999999999999999999")), None);
    assert_eq!(parse_number(&c("")), None);
    assert_eq!(parse_number(&c("+")), None);
    assert_eq!(parse_number(&c("-1")), None);
    assert_eq!(parse_number(&c("1a")), None);
    assert_eq!(parse_number(&c("١")), None);
}

#[test]
fn parse_number_agrees_with_the_standard_library() {
    for text in ["", "+", "0", "+0", "12", "１２", "1_0", " 1", "184467440737095516150"] {
        assert_eq!(parse_number(&c(text)), text.parse::<u64>().ok(), "{:?}", text);
    }
}

#[test]
fn replacing() {
    assert_eq!(s(&replace_all(&c("aaa"), &c("aa"), &c("b"))), "ba");
    assert_eq!(s(&replace_all(&c("a.b.c"), &c("."), &c(""))), "abc");
    assert_eq!(s(&replace_all(&c("abc"), &c(""), &c("x"))), "abc");
    assert_eq!(s(&replace_all(&c("abc"), &c("abcd"), &c("x"))), "abc");
}
