use changelog_gen::text::{char_is_whitespace, chars_lt, contains_text, decimal_chars, find_in};
use changelog_gen::text::{from_chars, joined, lines_of, matches_at, position_of, push_all};
use changelog_gen::text::{replaced, same_chars, same_text, slice_of, starts_with, to_chars};
use changelog_gen::text::{trimmed, trimmed_end};

fn chars(s: &str) -> Vec<char> {
    s.chars().collect()
}

fn text(v: &[char]) -> String {
    v.iter().collect()
}

#[test]
fn whitespace_is_what_unicode_says() {
    for c in ['\t', '\n', '\u{b}', '\u{c}', '\r', ' ', '\u{85}', '\u{a0}', '\u{1680}', '\u{2000}',
        '\u{2005}', '\u{200a}', '\u{2028}', '\u{2029}', '\u{202f}', '\u{205f}', '\u{3000}']
    {
        assert!(char_is_whitespace(c), "{:?}", c);
    }
    for c in ['a', '0', '-', '#', '\u{8}', '\u{e}', '\u{200b}', '\u{180e}', '\u{feff}', '\u{1f}'] {
        assert!(!char_is_whitespace(c), "{:?}", c);
    }
    for code in 0..0x3100u32 {
        if let Some(c) = char::from_u32(code) {
            assert_eq!(char_is_whitespace(c), c.is_whitespace(), "{:x}", code);
        }
    }
}

#[test]
fn strings_and_characters_convert_both_ways() {
    assert_eq!(to_chars("héllo"), vec!['h', 'é', 'l', 'l', 'o']);
    assert_eq!(from_chars(&chars("héllo wörld")), "héllo wörld");
    assert!(to_chars("").is_empty());
    assert_eq!(from_chars(&Vec::new()), "");
    assert_eq!(joined("ab", "cd"), "abcd");
    let mut v = chars("ab");
    push_all(&mut v, &chars("cd"));
    assert_eq!(text(&v), "abcd");
    assert_eq!(text(&slice_of(&chars("abcdef"), 2, 4)), "cd");
    assert!(slice_of(&chars("abc"), 3, 3).is_empty());
}

#[test]
fn trimming_drops_whitespace_at_the_ends() {
    assert_eq!(text(&trimmed(&chars("  a b \t\r\n"))), "a b");
    assert_eq!(text(&trimmed(&chars("\u{3000}x\u{a0}"))), "x");
    assert_eq!(text(&trimmed(&chars("x"))), "x");
    assert!(trimmed(&chars(" \t ")).is_empty());
    assert!(trimmed(&chars("")).is_empty());
    assert_eq!(text(&trimmed_end(&chars("  a b \n\n"))), "  a b");
    assert!(trimmed_end(&chars("\n")).is_empty());
    for s in ["", " ", "a", " a", "a ", " a b ", "\t\ta\u{2003}", "\u{200b} x"] {
        assert_eq!(text(&trimmed(&chars(s))), s.trim(), "{:?}", s);
        assert_eq!(text(&trimmed_end(&chars(s))), s.trim_end(), "{:?}", s);
    }
}

#[test]
fn texts_are_compared_and_searched() {
    assert!(same_text("abc", "abc"));
    assert!(!same_text("abc", "abd"));
    assert!(!same_text("abc", "ab"));
    assert!(same_chars(&chars(""), &chars("")));
    assert!(starts_with(&chars("## x"), "## "));
    assert!(!starts_with(&chars("##"), "## "));
    assert!(starts_with(&chars("x"), ""));
    assert!(matches_at(&chars("abcabc"), &chars("bc"), 4));
    assert!(!matches_at(&chars("abcabc"), &chars("bc"), 5));
    assert_eq!(position_of(&chars("a:b:c"), ':'), 1);
    assert_eq!(position_of(&chars("abc"), ':'), 3);
    assert_eq!(find_in(&chars("1.0 - 2.0 - x"), &chars(" - ")), 3);
    assert_eq!(find_in(&chars("abc"), &chars("cd")), 3);
    assert_eq!(find_in(&chars("abc"), &chars("")), 0);
    assert!(contains_text(&chars("say !log now"), "!log"));
    assert!(!contains_text(&chars("say !lo"), "!log"));
    assert!(contains_text(&chars(""), ""));
    for (s, p) in [("aaa", "aa"), ("abcabd", "abd"), ("x", "xy"), ("", "a"), ("ab", "")] {
        assert_eq!(contains_text(&chars(s), p), s.contains(p), "{:?} {:?}", s, p);
    }
}

#[test]
fn texts_are_ordered_as_strings_are() {
    let samples = ["", "a", "A", "ab", "abc", "b", "B", "álpha", "z", "Z", "aa", "\u{10000}", "é"];
    for a in samples {
        for b in samples {
            assert_eq!(chars_lt(&chars(a), &chars(b)), a < b, "{:?} {:?}", a, b);
        }
    }
}

#[test]
fn every_occurrence_is_replaced() {
    let replace = |s: &str, p: &str, to: &str| text(&replaced(&chars(s), &chars(p), &chars(to)));
    assert_eq!(replace("## {version}", "{version}", "1.0.0"), "## 1.0.0");
    assert_eq!(replace("{date} and {date}", "{date}", ""), " and ");
    assert_eq!(replace("aaaa", "aa", "b"), "bb");
    assert_eq!(replace("aaa", "aa", "b"), "ba");
    assert_eq!(replace("abc", "x", "y"), "abc");
    assert_eq!(replace("", "x", "y"), "");
    assert_eq!(replace("abc", "", "y"), "abc");
    for (s, p, to) in [("a.b.c", ".", "::"), ("xxx", "x", "xx"), ("abab", "ab", "ba")] {
        assert_eq!(replace(s, p, to), s.replace(p, to));
    }
}

#[test]
fn a_text_is_split_at_its_line_feeds() {
    let lines = |s: &str| -> Vec<String> { lines_of(&chars(s)).iter().map(|l| text(l)).collect() };
    assert_eq!(lines("a\nb"), vec!["a", "b"]);
    assert_eq!(lines("a\nb\n"), vec!["a", "b", ""]);
    assert_eq!(lines(""), vec![""]);
    assert_eq!(lines("\n\n"), vec!["", "", ""]);
    assert_eq!(lines("a\r\nb"), vec!["a\r", "b"]);
}

#[test]
fn numbers_are_written_in_decimal() {
    assert_eq!(text(&decimal_chars(0)), "0");
    assert_eq!(text(&decimal_chars(7)), "7");
    assert_eq!(text(&decimal_chars(10)), "10");
    assert_eq!(text(&decimal_chars(1234567890)), "1234567890");
    assert_eq!(text(&decimal_chars(u64::MAX)), "18446744073709551615");
    for n in [9u64, 99, 100, 101, 4096, 999_999] {
        assert_eq!(text(&decimal_chars(n)), n.to_string());
    }
}
