use agent_harness::text::{
    chars_of, decimal_text, is_whitespace, join, same_chars, slice_of, split, split_lines,
    split_words, text_of, trim,
};
use agent_harness::text_map::TextMap;

fn texts(parts: Vec<Vec<char>>) -> Vec<String> {
    parts.iter().map(text_of).collect()
}

#[test]
fn whitespace_is_that_of_the_standard_library() {
    for n in 0..=0x10ffffu32 {
        if let Some(c) = char::from_u32(n) {
            assert_eq!(is_whitespace(c), c.is_whitespace(), "{:x}", n);
        }
    }
}

#[test]
fn lines_are_those_of_the_standard_library() {
    for text in [
        "", "\n", "\r\n", "a", "a\n", "a\r\n", "a\nb", "a\r\n\r\nb\r", "\n\n", "foo\nbar\n\r\nbaz\r",
        "a\rb\nc\r\r\nd", "\u{e9}\n\u{4e2d}",
    ] {
        let expected: Vec<String> = text.lines().map(|line| line.to_owned()).collect();
        assert_eq!(texts(split_lines(&chars_of(text))), expected, "{:?}", text);
    }
}

#[test]
fn words_are_those_of_the_standard_library() {
    for text in [
        "", "  ", "GET / HTTP/1.1", "  a\tb\u{a0}c\u{3000}d ", "one", " one", "one ", "\u{2009}x",
    ] {
        let expected: Vec<String> = text.split_whitespace().map(|word| word.to_owned()).collect();
        assert_eq!(texts(split_words(&chars_of(text))), expected, "{:?}", text);
    }
}

#[test]
fn pieces_are_those_of_the_standard_library() {
    for text in ["", ":", "a", "a:b", "a:b:c", ":a:", "::", "Host: localhost"] {
        let expected: Vec<String> = text.split(':').map(|piece| piece.to_owned()).collect();
        assert_eq!(texts(split(&chars_of(text), ':')), expected, "{:?}", text);
    }
}

#[test]
fn pieces_join_to_the_text() {
    for text in ["", ":", "a", "a:b", "a:b:c", ":a:", "::"] {
        let pieces = split(&chars_of(text), ':');
        assert!(pieces.iter().all(|piece| !piece.contains(&':')));
        assert_eq!(join(&pieces, 0, ':'), text);
    }
}

#[test]
fn lines_join_to_the_text() {
    assert_eq!(join(&split_lines(&chars_of("a\nb\n\nc")), 0, '\n'), "a\nb\n\nc");
    assert_eq!(join(&split_lines(&chars_of("a\r\nb\n")), 0, '\n'), "a\nb");
}

#[test]
fn trimming_is_that_of_the_standard_library() {
    for text in ["", " ", " a ", "a b", "\t\u{a0}x y\u{2003}\n", "none"] {
        let trimmed = text_of(&trim(&chars_of(text)));
        assert_eq!(trimmed, text.trim(), "{:?}", text);
        assert_eq!(text_of(&trim(&chars_of(&trimmed))), trimmed);
    }
}

#[test]
fn numbers_are_written_in_decimal() {
    for n in [0, 7, 9, 10, 42, 99, 100, 1000, 65535, u64::MAX] {
        assert_eq!(decimal_text(n), n.to_string());
    }
}

#[test]
fn parts_of_a_text_are_cut_and_compared() {
    let chars = chars_of("h\u{e9}llo");
    assert_eq!(text_of(&slice_of(&chars, 1, 3)), "\u{e9}l");
    assert!(same_chars(&chars, "h\u{e9}llo"));
    assert!(!same_chars(&chars, "hello"));
    assert!(!same_chars(&chars, "h\u{e9}ll"));
}

#[test]
fn a_key_keeps_its_place_and_takes_the_later_value() {
    let mut map = TextMap::new();
    map.insert("a".to_owned(), "1".to_owned());
    map.insert("b".to_owned(), "2".to_owned());
    map.insert("a".to_owned(), "3".to_owned());
    assert_eq!(map.len(), 2);
    assert_eq!((map.key(0).as_str(), map.value(0).as_str()), ("a", "3"));
    assert_eq!((map.key(1).as_str(), map.value(1).as_str()), ("b", "2"));
    assert_eq!(map.get("a"), Some(&"3".to_owned()));
    assert_eq!(map.get("c"), None);
    assert!(map.contains_key("b"));
    assert!(!map.contains_key("c"));
    let copy = map.clone();
    assert_eq!(copy.len(), 2);
    assert_eq!(copy.get("b"), Some(&"2".to_owned()));
}
