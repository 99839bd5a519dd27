//! Reading what cargo prints.

use nocompile::json::{parse, Value};

fn text_at<'a>(value: &'a Value, path: &[&str]) -> Option<&'a str> {
    value.path_str(path)
}

#[test]
fn a_string_is_found_by_the_names_that_lead_to_it() {
    let value = parse(r#"{"reason":"x","target":{"name":"f_a","kind":["bin"]},"n":1}"#).unwrap();
    assert_eq!(text_at(&value, &["reason"]), Some("x"));
    assert_eq!(text_at(&value, &["target", "name"]), Some("f_a"));
    assert_eq!(text_at(&value, &["target"]), None);
    assert_eq!(text_at(&value, &["n"]), None);
    assert_eq!(text_at(&value, &["target", "kind"]), None);
    assert_eq!(text_at(&value, &["reason", "name"]), None);
    assert_eq!(text_at(&value, &["nothing"]), None);
    assert_eq!(text_at(&parse("\"whole\"").unwrap(), &[]), Some("whole"));
}

#[test]
fn escapes_are_read() {
    let value = parse(r#"{"a":"\"\\\/\b\f\n\r\t\u0041\u00e9"}"#).unwrap();
    assert_eq!(
        text_at(&value, &["a"]),
        Some("\"\\/\u{8}\u{c}\n\r\tA\u{e9}")
    );
}

/// A character outside the basic plane is written as a pair.
#[test]
fn surrogate_pairs_are_read_as_one_character() {
    let value = parse(r#"{"a":"\ud83d\ude00"}"#).unwrap();
    assert_eq!(text_at(&value, &["a"]), Some("\u{1f600}"));
}

#[test]
fn every_kind_of_value_is_read() {
    for text in [
        "null",
        "true",
        "false",
        "0",
        "-1",
        "12.5",
        "1e9",
        "-1.5E-3",
        "\"\"",
        "[]",
        "{}",
        "[1, [2, {}], \"x\"]",
        " { \"a\" : [ null , true ] } ",
    ] {
        assert!(parse(text).is_some(), "{text}");
    }
}

#[test]
fn what_is_not_one_whole_value_is_refused() {
    for text in [
        "",
        "{",
        "}",
        "[1,]",
        "{\"a\":1,}",
        "{\"a\"}",
        "{a:1}",
        "nul",
        "01",
        "1.",
        ".5",
        "-",
        "+1",
        "1e",
        "\"open",
        "\"\\x\"",
        "\"\\u12g4\"",
        "\"tab\there\"",
        "\"\\ud83d\"",
        "\"\\ude00\"",
        "{} x",
        "{}{}",
    ] {
        assert!(parse(text).is_none(), "{text}");
    }
}

/// Where a name is given twice, the first counts.
#[test]
fn the_first_of_two_members_counts() {
    let value = parse(r#"{"a":"one","a":"two"}"#).unwrap();
    assert_eq!(text_at(&value, &["a"]), Some("one"));
}

/// Whatever a string holds, writing it with its escapes and reading it gives it
/// back.
#[test]
fn a_written_string_reads_back() {
    for text in ["", "plain", "a\"b\\c", "line\nline\r\n\t", "\u{1}\u{1f600}/"] {
        let mut written = String::from("{\"a\":\"");
        for c in text.chars() {
            match c {
                '"' => written.push_str("\\\""),
                '\\' => written.push_str("\\\\"),
                c if (c as u32) < 0x20 => written.push_str(&format!("\\u{:04x}", c as u32)),
                c => written.push(c),
            }
        }
        written.push_str("\"}");
        let value = parse(&written).unwrap();
        assert_eq!(text_at(&value, &["a"]), Some(text));
    }
}
