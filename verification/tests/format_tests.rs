use jsonfmt::format::{format_document, format_text, json_format};
use jsonfmt::events::{Ev, Kind};
use rustc_serialize::json::Json;

#[test]
fn small_object_inline() {
    let out = format_text("{\"a\":1,\"b\":2}");
    assert_eq!(out, "{\"a\": 1, \"b\": 2}");
}

#[test]
fn empty_containers() {
    let out = format_text("{\"a\":[],\"b\":{}}");
    assert_eq!(out, "{\"a\": [], \"b\": {}}");
}

#[test]
fn unicode_passthrough() {
    let out = format_text("{\"a\":\"h\u{e9}llo\"}");
    assert_eq!(out, "{\"a\": \"h\u{e9}llo\"}");
}

#[test]
fn nested_large_array_indents() {
    let mut input = String::from("[");
    let mut expected = String::from("[");
    for i in 0..50 {
        if i > 0 {
            input += ",";
            expected += ",";
        }
        input += &format!("{{\"a\":{}}}", i);
        expected += &format!("\n  {{\"a\": {}}}", i);
    }
    input += "]";
    expected += "\n]";
    let out = format_text(&input);
    assert_eq!(out, expected);
}

#[test]
fn scalar_documents() {
    assert_eq!(format_text("42"), "42");
    assert_eq!(format_text("-7"), "-7");
    assert_eq!(format_text("true"), "true");
    assert_eq!(format_text("false"), "false");
    assert_eq!(format_text("null"), "null");
    assert_eq!(format_text("\"hi\""), "\"hi\"");
}

#[test]
fn empty_input_gives_empty_output() {
    assert_eq!(format_text(""), "");
}

#[test]
fn threshold_inline_at_79() {
    // the object scope's compact rendering, `"k": "vv...v"}` with 71 v's,
    // is exactly 79 characters: it stays inline
    let scope = format!("\"k\": \"{}\"}}", "v".repeat(71));
    assert_eq!(scope.chars().count(), 79);
    let input = format!("{{\"k\":\"{}\"}}", "v".repeat(71));
    let expected = format!("{{\"k\": \"{}\"}}", "v".repeat(71));
    let out = format_text(&input);
    assert_eq!(out, expected);
    assert!(!out.contains('\n'));
}

#[test]
fn threshold_indented_at_80() {
    // with 72 v's the scope's compact rendering is exactly 80 characters:
    // it is rendered indented
    let scope = format!("\"k\": \"{}\"}}", "v".repeat(72));
    assert_eq!(scope.chars().count(), 80);
    let input = format!("{{\"k\":\"{}\"}}", "v".repeat(72));
    let expected = format!("{{\n  \"k\": \"{}\"\n}}", "v".repeat(72));
    let out = format_text(&input);
    assert_eq!(out, expected);
}

#[test]
fn inner_scope_stays_inline_in_large_document() {
    let input = format!("{{\"big\":\"{}\",\"small\":{{\"x\":1}}}}", "w".repeat(100));
    let out = format_text(&input);
    assert!(out.contains("{\"x\": 1}"));
    assert!(out.starts_with("{\n  \"big\":"));
}

#[test]
fn round_trip_preserves_structure() {
    let inputs = [
        "{\"a\":1,\"b\":2}",
        "{\"a\":[],\"b\":{}}",
        "[1,2,3,{\"x\":[true,false,null]}]",
        "{\"s\":\"q\\\"b\\\\c\",\"n\":-3.5,\"u\":18446744073709551615}",
        "[{\"deep\":{\"deeper\":{\"deepest\":[1,2,3,4,5,6,7,8,9,10]}}}]",
    ];
    for input in inputs.iter() {
        let out = format_text(input);
        let before = Json::from_str(input).unwrap();
        let after = Json::from_str(&out).unwrap();
        assert_eq!(before, after);
    }
}

#[test]
fn formatting_is_idempotent() {
    let inputs = [
        "{\"a\":1,\"b\":2}",
        "[1,2,3,{\"x\":[true,false,null]}]",
        "{\"s\":\"q\\\"b\\\\c\",\"n\":-3.5}",
        "[{\"deep\":{\"deeper\":{\"deepest\":\"wwwwwwwwwwwwwwwwwwwwwwwwwwwwwwwwwwwwwwwwwwwwwwwwwwwwwwwwwwwwwwwwwwwwwwwwwwwwwwww\"}}}]",
    ];
    for input in inputs.iter() {
        let once = format_text(input);
        let twice = format_text(&once);
        assert_eq!(once, twice);
    }
}

#[test]
fn numbers_keep_their_decimal_text() {
    assert_eq!(format_text("[0,-1,3.5]"), "[0, -1, 3.5]");
}

#[test]
fn keys_are_escaped_too() {
    let out = format_text("{\"q\\\"b\\\\c\":1}");
    assert_eq!(out, "{\"q\\\"b\\\\c\": 1}");
}

#[test]
fn small_array_stays_inline() {
    assert_eq!(format_text("[1,[2,3],[]]"), "[1, [2, 3], []]");
}

#[test]
fn format_document_renders_small_documents() {
    let input = "{\"a\":1,\"b\":2}";
    assert_eq!(format_document(input), Some(String::from("{\"a\": 1, \"b\": 2}")));
    assert_eq!(format_document(input).unwrap(), format_text(input));
}

#[test]
fn format_document_accepts_65535_bytes() {
    // a 65535-byte document: one string of 65533 characters
    let input = format!("\"{}\"", "a".repeat(65533));
    assert_eq!(input.len(), 65535);
    let out = format_document(&input).unwrap();
    assert_eq!(out, input);
}

#[test]
fn format_document_refuses_65536_bytes() {
    let input = format!("\"{}\"", "a".repeat(65534));
    assert_eq!(input.len(), 65536);
    assert_eq!(format_document(&input), None);
}

#[test]
fn format_document_refuses_exponent_numbers() {
    assert_eq!(format_document("[1e5]"), None);
    assert_eq!(format_document("{\"x\":2E10}"), None);
    // an e not preceded by a digit is no exponent shape
    assert!(format_document("{\"e\":\"steve\"}").is_some());
}

#[test]
fn json_format_renders_events_directly() {
    let events = vec![
        Ev { key: None, kind: Kind::ObjStart },
        Ev { key: Some(String::from("a")), kind: Kind::Num(String::from("1")) },
        Ev { key: None, kind: Kind::ObjEnd },
    ];
    let out: String = json_format(&events).iter().collect();
    assert_eq!(out, "{\"a\": 1}");
}

#[test]
fn json_format_ignores_contentless_events() {
    let events = vec![Ev { key: None, kind: Kind::Other }];
    let out: String = json_format(&events).iter().collect();
    assert_eq!(out, "");
}
