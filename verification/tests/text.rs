//! Lines, words, paragraphs and wrapping, held against the standard library.
use mago_lines::text::{byte_len_of, chars_of, decimal_of, join_strings, lines_of, raw_lines_of, string_of};
use mago_lines::words::{paragraphs_of, trim_end_of, trim_of, white_space, words_of};
use mago_lines::wrap::wrap_and_prefix;

fn samples() -> Vec<&'static str> {
    vec![
        "",
        "\n",
        "\n\n",
        "a",
        "a\n",
        "a\nb",
        "a\r\nb\r\n",
        "a\r",
        "\r\n\r",
        "\r\r\n",
        " a  b\t\n c \n\n  d\u{a0}e \u{2003}",
        "äöü\n€ \u{1f6ab}\n",
        "\u{85}x\u{2028}y\u{3000}",
        "\n\n\na\n\n\n\nb\n",
    ]
}

#[test]
fn lines_are_those_of_the_standard_library() {
    for s in samples() {
        let expected: Vec<String> = s.lines().map(|l| l.to_string()).collect();
        assert_eq!(lines_of(s), expected, "{:?}", s);
        let expected: Vec<String> = s.split_inclusive('\n').map(|l| l.to_string()).collect();
        assert_eq!(raw_lines_of(s), expected, "{:?}", s);
    }
}

#[test]
fn words_and_trimming_are_those_of_the_standard_library() {
    for s in samples() {
        let expected: Vec<String> = s.split_whitespace().map(|w| w.to_string()).collect();
        assert_eq!(words_of(s), expected, "{:?}", s);
        assert_eq!(trim_of(s), s.trim());
        assert_eq!(trim_end_of(s), s.trim_end());
    }
}

#[test]
fn paragraphs_are_split_at_blank_lines() {
    for s in samples() {
        let expected: Vec<String> = s.split("\n\n").map(|p| p.to_string()).collect();
        assert_eq!(paragraphs_of(s), expected, "{:?}", s);
    }
}

#[test]
fn white_space_is_that_of_the_standard_library() {
    for code in 0..=0x10ffffu32 {
        if let Some(c) = char::from_u32(code) {
            assert_eq!(white_space(c), c.is_whitespace(), "{code:x}");
        }
    }
}

#[test]
fn numbers_are_written_in_decimal() {
    for n in [0, 7, 10, 99, 100, 12345, usize::MAX] {
        assert_eq!(decimal_of(n), format!("{n}"));
    }
}

#[test]
fn bytes_and_characters_are_counted() {
    for s in samples() {
        assert_eq!(byte_len_of(s), s.len());
        let chars = chars_of(s);
        assert_eq!(chars, s.chars().collect::<Vec<char>>());
        assert_eq!(string_of(&chars, 0, chars.len()), s);
    }
}

#[test]
fn strings_are_joined() {
    let list: Vec<String> = vec!["a".to_string(), "".to_string(), "b".to_string()];
    assert_eq!(join_strings(&list, ", "), "a, , b");
    assert_eq!(join_strings(&Vec::new(), ", "), "");
}

#[test]
fn wrapping_breaks_before_the_width() {
    assert_eq!(wrap_and_prefix("aaa bbb ccc", "> ", 9), "> aaa bbb\n> ccc");
    assert_eq!(wrap_and_prefix("aaa bbb ccc", "> ", 8), "> aaa\n> bbb\n> ccc");
    assert_eq!(wrap_and_prefix("aaa bbb ccc", "> ", 80), "> aaa bbb ccc");
}

#[test]
fn wrapping_does_not_break_words() {
    assert_eq!(wrap_and_prefix("a verylongword b", "", 4), "a\nverylongword\nb");
    assert_eq!(wrap_and_prefix("one two", "prefix ", 3), "prefix one\nprefix two");
}

#[test]
fn wrapping_counts_bytes() {
    assert_eq!(wrap_and_prefix("ää b", "", 5), "ää\nb");
    assert_eq!(wrap_and_prefix("ää b", "", 6), "ää b");
}

#[test]
fn wrapping_keeps_paragraphs_apart() {
    assert_eq!(
        wrap_and_prefix("  first one\nstill first\n\nsecond\n", "| ", 40),
        "| first one still first\n| \n| second"
    );
    assert_eq!(wrap_and_prefix("a\n\n\n\nb", "|", 40), "|a\n|\n|\n|b");
}

#[test]
fn wrapping_nothing_gives_nothing() {
    assert_eq!(wrap_and_prefix(" \n\n ", "> ", 10), "");
}
