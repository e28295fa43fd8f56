//! Texts, numbers and maps.

use rune_typechecker::number::{read_integer, reads_float, stripped};
use rune_typechecker::source_text::{line_of, lit_str_value, slice, text_up_to, unescape};
use rune_typechecker::syntax::{Span, StrLit, StrText};
use rune_typechecker::text::{
    after_char, after_prefix, before_suffix, chars_of, joined, last_found, push_decimal,
    split_lines, string_of, trimmed, trimmed_end, trimmed_start,
};
use rune_typechecker::NameMap;

fn chars(s: &str) -> Vec<char> {
    chars_of(s)
}

#[test]
fn escapes_stand_for_characters() {
    assert_eq!(unescape(r"plain"), "plain");
    assert_eq!(unescape(r"\n\t\r\0\\\q"), "\n\t\r\0\\q");
    assert_eq!(unescape("\\\"\\'"), "\"'");
    assert_eq!(unescape("end\\"), "end");
}

#[test]
fn spans_are_counted_in_bytes() {
    let source = "žluť\nkůň\n";
    assert_eq!(slice(source, Span { start: 0, end: 2 }), "ž");
    assert_eq!(slice(source, Span { start: 7, end: 12 }), "kůň");
    assert_eq!(text_up_to(source, 6), "žluť");
    assert_eq!(line_of(source, Span { start: 0, end: 0 }), 1);
    assert_eq!(line_of(source, Span { start: 6, end: 6 }), 1);
    assert_eq!(line_of(source, Span { start: 7, end: 12 }), 2);
    assert_eq!(line_of(source, Span { start: 13, end: 13 }), 3);
}

#[test]
fn string_literals_lose_their_quotes() {
    let source = r#"x "a\n" y"#;
    let span = Span { start: 2, end: 7 };
    let lit = |escaped: bool, wrapped: bool| StrLit {
        span,
        text: Some(StrText { escaped, wrapped }),
    };
    assert_eq!(lit_str_value(source, lit(true, true)), "a\n");
    assert_eq!(lit_str_value(source, lit(false, true)), "a\\n");
    assert_eq!(lit_str_value(source, lit(false, false)), "\"a\\n\"");
    assert_eq!(lit_str_value(source, StrLit { span, text: None }), "");
}

#[test]
fn integers_are_read_in_their_base() {
    assert_eq!(read_integer(&chars("42"), 10), Some(42));
    assert_eq!(read_integer(&chars("+42"), 10), Some(42));
    assert_eq!(read_integer(&chars("-42"), 10), Some(-42));
    assert_eq!(read_integer(&chars("fF"), 16), Some(255));
    assert_eq!(read_integer(&chars("102"), 2), None);
    assert_eq!(read_integer(&chars(""), 10), None);
    assert_eq!(read_integer(&chars("-"), 10), None);
    assert_eq!(read_integer(&chars("1_0"), 10), None);
    assert_eq!(
        read_integer(&chars("-9223372036854775808"), 10),
        Some(i64::MIN)
    );
    assert_eq!(read_integer(&chars("9223372036854775808"), 10), None);
    assert_eq!(read_integer(&chars("-9223372036854775809"), 10), None);
}

#[test]
fn prefixes_are_stripped_as_often_as_they_stand() {
    assert_eq!(string_of(stripped(&chars("0x1f"), "0x")), "1f");
    assert_eq!(string_of(stripped(&chars("0x0x1f"), "0x")), "1f");
    assert_eq!(string_of(stripped(&chars("1f"), "0x")), "1f");
}

#[test]
fn floating_point_numbers_are_recognized() {
    for text in ["1.5", "1", ".5", "5.", "1e3", "1.5E-3", "-2.0e+10", "inf", "-Infinity", "NaN"] {
        assert!(reads_float(&chars(text)), "{text}");
        assert!(text.parse::<f64>().is_ok(), "{text}");
    }
    for text in ["", ".", "e3", "1e", "1.5.2", "1_0", "0x1", "infin", "1 ", "+-1", "1e1.5"] {
        assert!(!reads_float(&chars(text)), "{text}");
        assert!(text.parse::<f64>().is_err(), "{text}");
    }
}

#[test]
fn white_space_is_trimmed() {
    let text = chars("\u{3000}\t a b \n");
    assert_eq!(string_of(trimmed(&text)), "a b");
    assert_eq!(string_of(trimmed_start(&text)), "a b \n");
    assert_eq!(string_of(trimmed_end(&text)), "\u{3000}\t a b");
    assert_eq!(string_of(trimmed(&chars(" \u{85}\u{a0} "))), "");
}

#[test]
fn parts_of_texts_are_found() {
    let text = chars("abcab");
    assert_eq!(after_prefix(&text, "ab").map(string_of), Some("cab".to_string()));
    assert_eq!(after_prefix(&text, "b"), None);
    assert_eq!(before_suffix(&text, "ab").map(string_of), Some("abc".to_string()));
    assert_eq!(before_suffix(&text, "ac"), None);
    assert_eq!(after_char(&text, 'a').map(string_of), Some("bcab".to_string()));
    assert_eq!(after_char(&text, 'b'), None);
    assert_eq!(last_found(&text, "ab"), Some(3));
    assert_eq!(last_found(&text, "x"), None);
}

#[test]
fn lines_are_split_as_std_does() {
    for text in ["", "\n", "a", "a\n", "a\r\nb", "a\n\nb\n", "a\rb", "a\r\n", "\r\n\r", "a\r"] {
        let found: Vec<String> = split_lines(&chars(text)).into_iter().map(string_of).collect();
        let wanted: Vec<String> = text.lines().map(str::to_string).collect();
        assert_eq!(found, wanted, "{text:?}");
    }
}

#[test]
fn texts_are_joined() {
    let parts = |names: &[&str]| names.iter().map(|n| n.to_string()).collect::<Vec<String>>();
    assert_eq!(joined(&parts(&["a", "b", "c"]), "::"), "a::b::c");
    assert_eq!(joined(&parts(&["a"]), "::"), "a");
    assert_eq!(joined(&parts(&[]), "::"), "");
}

#[test]
fn numbers_are_written_in_decimal() {
    for n in [0, 9, 10, 1234567890] {
        let mut out = String::new();
        push_decimal(&mut out, n);
        assert_eq!(out, n.to_string());
    }
}

#[test]
fn maps_hold_the_last_value_of_a_name() {
    let mut map: NameMap<i32> = NameMap::new();
    assert!(map.is_empty());
    map.insert("a".to_string(), 1);
    map.insert("b".to_string(), 2);
    map.insert("a".to_string(), 3);
    assert_eq!(map.len(), 2);
    assert_eq!(map.get("a"), Some(&3));
    assert_eq!(map.get("c"), None);
    assert!(map.contains_key("b"));
    let copy = map.clone();
    assert_eq!(map.remove("a"), Some(3));
    assert_eq!(map.remove("a"), None);
    assert_eq!(map.len(), 1);
    assert_eq!(copy.get("a"), Some(&3));
    let (name, value) = map.entry(0);
    assert_eq!((name.as_str(), *value), ("b", 2));
}
