use jsonfmt::escape::escape_str;
use jsonfmt::format::{build_indent, format_text};
use rustc_serialize::json::Json;

fn escaped(v: &str) -> String {
    let mut out: Vec<char> = Vec::new();
    escape_str(&mut out, v);
    out.iter().collect()
}

#[test]
fn plain_text_is_quoted_only() {
    assert_eq!(escaped("hello"), "\"hello\"");
    assert_eq!(escaped(""), "\"\"");
}

#[test]
fn quote_and_backslash_are_escaped() {
    assert_eq!(escaped("q\"b\\c"), "\"q\\\"b\\\\c\"");
}

#[test]
fn short_escapes() {
    assert_eq!(escaped("\u{8}\t\n\u{c}\r"), "\"\\b\\t\\n\\f\\r\"");
}

#[test]
fn control_characters_use_u00_form() {
    assert_eq!(
        escaped("\u{0}\u{1}\u{b}\u{e}\u{1f}\u{7f}"),
        "\"\\u0000\\u0001\\u000b\\u000e\\u001f\\u007f\""
    );
}

#[test]
fn multi_byte_characters_pass_through() {
    assert_eq!(escaped("h\u{e9}llo \u{3042}"), "\"h\u{e9}llo \u{3042}\"");
}

#[test]
fn escaped_strings_decode_back_to_the_original() {
    let originals = ["q\"b\\c", "\u{0}\u{1}\u{1f}\u{7f}", "\u{8}\t\n\u{c}\rplain"];
    for original in originals.iter() {
        let input = Json::String(String::from(*original)).to_string();
        let out = format_text(&input);
        match Json::from_str(&out).unwrap() {
            Json::String(s) => assert_eq!(&s, original),
            _ => panic!("expected a string document"),
        }
    }
}

#[test]
fn build_indent_trims_then_indents() {
    let mut buf: Vec<char> = vec!['x', ',', ' '];
    build_indent(&mut buf, 2);
    let s: String = buf.iter().collect();
    assert_eq!(s, "x,\n    ");
}

#[test]
fn build_indent_trims_all_unicode_whitespace() {
    let mut buf: Vec<char> = vec!['x', '\u{b}', '\u{a0}', '\u{3000}'];
    build_indent(&mut buf, 0);
    let s: String = buf.iter().collect();
    assert_eq!(s, "x\n");
}

#[test]
fn build_indent_level_zero() {
    let mut buf: Vec<char> = Vec::new();
    build_indent(&mut buf, 0);
    let s: String = buf.iter().collect();
    assert_eq!(s, "\n");
}
