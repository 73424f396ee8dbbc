use pkgsmgr::decimal::{push_decimal, read_decimal};
use pkgsmgr::fields::{join_from, split_chars};
use pkgsmgr::lines::{is_space, split_lines, trim_chars};
use pkgsmgr::text::{copy_range, extend_chars, push_chars, same_chars, to_chars, to_text};
use pkgsmgr::types::is_word;

fn chars(s: &str) -> Vec<char> {
    s.chars().collect()
}

fn texts(parts: &[Vec<char>]) -> Vec<String> {
    parts.iter().map(|part| part.iter().collect()).collect()
}

#[test]
fn strings_and_characters_convert_both_ways() {
    assert_eq!(to_chars("päth;x"), vec!['p', 'ä', 't', 'h', ';', 'x']);
    assert_eq!(to_chars(""), Vec::<char>::new());
    assert_eq!(to_text(&['p', 'ä', 't', 'h']), "päth");
    assert_eq!(to_text(&[]), "");
    let mut s = String::from("ab");
    push_chars(&mut s, &['c', 'd']);
    assert_eq!(s, "abcd");
    let mut v = vec!['a'];
    extend_chars(&mut v, "bç");
    assert_eq!(v, vec!['a', 'b', 'ç']);
}

#[test]
fn ranges_are_copied_and_compared() {
    let s = chars("abcdef");
    assert_eq!(copy_range(&s, 1, 4), chars("bcd"));
    assert_eq!(copy_range(&s, 6, 6), chars(""));
    assert_eq!(copy_range(&s, 0, 6), s);
    assert!(same_chars(&s, &chars("abcdef")));
    assert!(!same_chars(&s, &chars("abcdeF")));
    assert!(!same_chars(&s, &chars("abcde")));
    assert!(same_chars(&[], &[]));
}

#[test]
fn splitting_yields_every_piece() {
    assert_eq!(texts(&split_chars(&chars("a;b;;c;"), ';')), vec!["a", "b", "", "c", ""]);
    assert_eq!(texts(&split_chars(&chars(""), ';')), vec![""]);
    assert_eq!(texts(&split_chars(&chars(";"), ';')), vec!["", ""]);
    assert_eq!(texts(&split_chars(&chars("no delimiter"), ';')), vec!["no delimiter"]);
}

#[test]
fn joining_puts_the_delimiter_between() {
    let parts = split_chars(&chars("a;b;;c;"), ';');
    assert_eq!(join_from(&parts, 0, ';'), chars("a;b;;c;"));
    assert_eq!(join_from(&parts, 3, ';'), chars("c;"));
    assert_eq!(join_from(&parts, 4, ';'), chars(""));
    assert_eq!(join_from(&parts, 5, ';'), chars(""));
    assert_eq!(join_from(&parts, 1, '/'), chars("b//c/"));
}

#[test]
fn lines_end_at_line_feeds() {
    assert_eq!(texts(&split_lines(&chars("a\nb\r\n\nc"))), vec!["a", "b", "", "c"]);
    assert_eq!(texts(&split_lines(&chars("a\n"))), vec!["a"]);
    assert_eq!(texts(&split_lines(&chars("a\n\n"))), vec!["a", ""]);
    assert_eq!(texts(&split_lines(&chars("a\r"))), vec!["a\r"]);
    assert_eq!(texts(&split_lines(&chars("a\r\r\n"))), vec!["a\r"]);
    assert_eq!(texts(&split_lines(&chars("\r"))), vec!["\r"]);
    assert_eq!(texts(&split_lines(&chars("\n"))), vec![""]);
    assert!(split_lines(&chars("")).is_empty());
}

#[test]
fn lines_are_those_of_the_standard_library() {
    for text in ["", "\n", "\r", "\r\n", "a", "a\nb", "a\r\nb\r", "\n\n\r\n", "x\r\r\n\ry\n\r", "a\n\r\n"] {
        let expected: Vec<String> = text.lines().map(|line| line.to_string()).collect();
        assert_eq!(texts(&split_lines(&chars(text))), expected);
    }
}

#[test]
fn white_space_is_that_of_the_standard_library() {
    for code in 0..=0x3100u32 {
        if let Some(c) = char::from_u32(code) {
            assert_eq!(is_space(c), c.is_whitespace());
        }
    }
    assert!(!is_space('\u{feff}'));
    assert!(!is_space(char::MAX));
}

#[test]
fn trimming_removes_white_space_at_both_ends() {
    assert_eq!(trim_chars(&chars(" \t a b \u{3000}\n")), chars("a b"));
    assert_eq!(trim_chars(&chars("a")), chars("a"));
    assert_eq!(trim_chars(&chars("  \r\n ")), chars(""));
    assert_eq!(trim_chars(&chars("")), chars(""));
}

#[test]
fn trimming_is_that_of_the_standard_library() {
    for text in ["", " ", "a", " a", "a ", "\u{85}a\u{a0}", "\u{2000}\u{200a}x y\u{2028}\u{2029}", "\u{200b}a\u{200b}", "\u{1680}\u{202f}\u{205f}", "\u{b}\u{c}z\r\n\t"] {
        assert_eq!(trim_chars(&chars(text)), chars(text.trim()));
    }
}

#[test]
fn decimal_numbers_are_read() {
    assert_eq!(read_decimal(&chars("0"), u64::MAX), Some(0));
    assert_eq!(read_decimal(&chars("420"), u64::MAX), Some(420));
    assert_eq!(read_decimal(&chars("+42"), u64::MAX), Some(42));
    assert_eq!(read_decimal(&chars("00042"), 42), Some(42));
    assert_eq!(read_decimal(&chars("43"), 42), None);
    assert_eq!(read_decimal(&chars("18446744073709551615"), u64::MAX), Some(u64::MAX));
    assert_eq!(read_decimal(&chars("18446744073709551616"), u64::MAX), None);
    assert_eq!(read_decimal(&chars("99999999999999999999999999"), u64::MAX), None);
    for bad in ["", "+", "-1", "++1", "1+", "1 ", " 1", "0x10", "1e3", "١٢٣", "12a"] {
        assert_eq!(read_decimal(&chars(bad), u64::MAX), None);
    }
}

#[test]
fn decimal_numbers_are_read_as_the_standard_library_reads_them() {
    for text in ["0", "+0", "007", "4294967295", "4294967296", "+", "", "-0", "12 ", "1_000"] {
        assert_eq!(
            read_decimal(&chars(text), u32::MAX as u64),
            text.parse::<u32>().ok().map(u64::from)
        );
    }
}

#[test]
fn decimal_numbers_are_written() {
    for n in [0u64, 7, 10, 99, 100, 420, 33188, u32::MAX as u64, u64::MAX] {
        let mut out = vec!['#'];
        push_decimal(&mut out, n);
        assert_eq!(out, chars(&format!("#{n}")));
        assert_eq!(read_decimal(&out[1..], u64::MAX), Some(n));
    }
}

#[test]
fn words_are_matched_without_regard_to_ascii_case() {
    assert!(is_word(&chars("ZsTd"), &chars("zstd")));
    assert!(is_word(&chars("zstd"), &chars("zstd")));
    assert!(!is_word(&chars("zstd"), &chars("ZSTD")));
    assert!(!is_word(&chars("zst"), &chars("zstd")));
    assert!(!is_word(&chars("\u{212a}"), &chars("k")));
    assert!(is_word(&chars(""), &chars("")));
}
