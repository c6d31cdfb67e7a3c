use portboard::numbers::{decimal_text, hex_text, parse_number};
use portboard::ordered::{rank_texts, Rank};
use portboard::path_text::{below, ends_with_path, file_name, join_path, same_path};
use portboard::portboard_error::PortboardError;
use portboard::text::{
    blank, contains_control, join, pad_to, shorten_to, split_lines, split_words, starts_with,
    text_of, trim,
};

fn characters(text: &str) -> Vec<char> {
    text.chars().collect()
}

fn rows(list: Vec<Vec<char>>) -> Vec<String> {
    list.iter().map(|row| text_of(row)).collect()
}

#[test]
fn numbers_are_read_and_written_as_the_standard_library_does() {
    for text in ["0", "007", "+12", "18446744073709551615", "18446744073709551616", "", "+", "-1", "1x"] {
        assert_eq!(parse_number(&characters(text), 10, u64::MAX), text.parse::<u64>().ok(), "{text}");
    }
    for text in ["45E8", "fFfF", "10000", "G"] {
        assert_eq!(
            parse_number(&characters(text), 16, 0xffff),
            u16::from_str_radix(text, 16).ok().map(u64::from),
            "{text}"
        );
    }
    for number in [0, 9, 10, 1234567890, u64::MAX] {
        assert_eq!(decimal_text(number), number.to_string());
    }
    assert_eq!(hex_text(&[0, 0x0f, 0xa5, 0xff]), "000fa5ff");
}

#[test]
fn texts_are_cut_as_the_standard_library_does() {
    for text in ["", " a b\t c\n", "\u{2003}x\u{85}", "no-space", "a\r\nb\n\nc\r", "\n"] {
        assert_eq!(trim(text), text.trim());
        assert_eq!(blank(text), text.trim().is_empty());
        assert_eq!(
            rows(split_words(&characters(text))),
            text.split_whitespace().collect::<Vec<_>>()
        );
        assert_eq!(rows(split_lines(&characters(text))), text.lines().collect::<Vec<_>>());
        assert_eq!(contains_control(text), text.chars().any(char::is_control));
    }
    assert!(starts_with("http://x", "http://"));
    assert!(!starts_with("http", "http://"));
    assert_eq!(join(&vec!["a".to_string(), "b".to_string()], ", "), "a, b");
    assert_eq!(pad_to("ab", 4), "ab  ");
    assert_eq!(shorten_to("abc", 0), "…");
}

#[test]
fn paths_are_compared_by_their_components() {
    assert!(below(b"/a/b", b"/a"));
    assert!(below(b"/a//b/./c", b"/a/b"));
    assert!(!below(b"/ab", b"/a"));
    assert!(same_path(b"/a/b/", b"/a/./b"));
    assert!(ends_with_path("/x/scripts/dev.mjs", "scripts/dev.mjs"));
    assert!(!ends_with_path("/x/xscripts/dev.mjs", "scripts/dev.mjs"));
    assert_eq!(file_name("/usr/bin/zsh").map(|name| text_of(&name)).as_deref(), Some("zsh"));
    assert_eq!(file_name("/"), None);
    assert_eq!(join_path(b"/a", b"b"), b"/a/b");
    assert_eq!(join_path(b"/a/", b"b"), b"/a/b");
    assert_eq!(join_path(b"/a", b"/b"), b"/b");
}

#[test]
fn texts_are_ranked_by_their_characters() {
    assert_eq!(rank_texts("a", "b"), Rank::Before);
    assert_eq!(rank_texts("ab", "a"), Rank::Behind);
    assert_eq!(rank_texts("ab", "ab"), Rank::Same);
}

#[test]
fn failures_are_shown_with_their_cause() {
    let plain = PortboardError::new("broken".to_string());
    assert_eq!((plain.to_string(), plain.chain()), ("broken".to_string(), "broken".to_string()));
    let caused = PortboardError::with_cause("broken".to_string(), "why".to_string());
    assert_eq!(caused.to_string(), "broken");
    assert_eq!(caused.chain(), "broken: why");
}
