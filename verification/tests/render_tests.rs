use grok_lines::fields::FieldMap;
use grok_lines::render::{parse_format, parse_json_line, render_csv_cells, render_json_map, OutputFormat};
use grok_lines::stats::Stats;
use grok_lines::text::dec_str;

fn map_of(pairs: &[(&str, &str)]) -> FieldMap {
    let mut m = FieldMap::new();
    for (k, v) in pairs {
        m.insert(k.to_string(), v.to_string());
    }
    m
}

#[test]
fn json_object_sorted_keys() {
    let m = map_of(&[("zeta", "1"), ("alpha", "2")]);
    let s = render_json_map(&m);
    assert_eq!(s, "{\"alpha\":\"2\",\"zeta\":\"1\"}");
}

#[test]
fn json_object_empty() {
    let m = FieldMap::new();
    assert_eq!(render_json_map(&m), "{}");
}

#[test]
fn json_escapes() {
    let m = map_of(&[("k", "a\"b\\c\nd\te")]);
    let s = render_json_map(&m);
    assert_eq!(s, "{\"k\":\"a\\\"b\\\\c\\nd\\te\"}");
}

#[test]
fn json_control_char_unicode_escape() {
    let m = map_of(&[("k", "a\u{1}b\u{1f}c")]);
    let s = render_json_map(&m);
    assert_eq!(s, "{\"k\":\"a\\u0001b\\u001fc\"}");
}

#[test]
fn json_matches_reference_serializer() {
    // The rendering must agree with what the serde_json serializer produces
    // for the same sorted string map.
    let m = map_of(&[("k", "a\"b\\c\nd"), ("z", "plain"), ("a", "x y")]);
    let ours = render_json_map(&m);
    let mut reference = std::collections::BTreeMap::new();
    reference.insert("k".to_string(), "a\"b\\c\nd".to_string());
    reference.insert("z".to_string(), "plain".to_string());
    reference.insert("a".to_string(), "x y".to_string());
    let theirs = serde_json::to_string(&reference).unwrap();
    assert_eq!(ours, theirs);
}

#[test]
fn json_round_trip_plain_values() {
    let m = map_of(&[("alpha", "2"), ("zeta", "1")]);
    let back = parse_json_line(&render_json_map(&m)).expect("plain rendering must re-parse");
    assert_eq!(back.get("alpha"), Some(&"2".to_string()));
    assert_eq!(back.get("zeta"), Some(&"1".to_string()));
    let empty = parse_json_line("{}").expect("the empty object must re-parse");
    assert_eq!(empty.len(), 0);
}

#[test]
fn json_round_trip() {
    let m = map_of(&[("client", "10.0.0.1"), ("note", "say \"hi\"\n")]);
    let s = render_json_map(&m);
    let back = parse_json_line(&s).expect("rendered output must re-parse");
    assert_eq!(back.len(), 2);
    assert_eq!(back.get("client"), Some(&"10.0.0.1".to_string()));
    assert_eq!(back.get("note"), Some(&"say \"hi\"\n".to_string()));
    assert_eq!(render_json_map(&back), s);
}

#[test]
fn json_round_trip_through_reference_parser() {
    let m = map_of(&[("k", "v"), ("q", "a\"b")]);
    let s = render_json_map(&m);
    let v: serde_json::Value = serde_json::from_str(&s).unwrap();
    assert_eq!(v["k"], "v");
    assert_eq!(v["q"], "a\"b");
}

#[test]
fn parse_json_line_rejects_non_objects() {
    assert!(parse_json_line("").is_none());
    assert!(parse_json_line("[1,2]").is_none());
    assert!(parse_json_line("{\"a\":1}").is_none());
    assert!(parse_json_line("{\"a\":\"b\"} ").is_none());
}

#[test]
fn csv_cells_quoted_and_joined() {
    let cells = vec!["a".to_string(), "b".to_string()];
    assert_eq!(render_csv_cells(&cells), "\"a\", \"b\"");
    let one = vec!["only".to_string()];
    assert_eq!(render_csv_cells(&one), "\"only\"");
    let none: Vec<String> = Vec::new();
    assert_eq!(render_csv_cells(&none), "");
}

#[test]
fn handle_parsed_csv_values_in_key_order() {
    let m = map_of(&[("b", "2"), ("a", "1")]);
    let line = OutputFormat::Csv.handle_parsed(&m);
    assert_eq!(line, "\"1\", \"2\"");
}

#[test]
fn handle_parsed_json() {
    let m = map_of(&[("a", "1")]);
    let line = OutputFormat::Json.handle_parsed(&m);
    assert_eq!(line, "{\"a\":\"1\"}");
}

#[test]
fn stats_rendered_as_json() {
    let stats = Stats { parsed: 3, failed: 2 };
    let lines = OutputFormat::Json.handle_stats(&stats);
    assert_eq!(lines.len(), 1);
    assert_eq!(lines[0], "{\"parsed\":3,\"failed\":2}");
}

#[test]
fn stats_rendered_as_csv() {
    let stats = Stats { parsed: 3, failed: 2 };
    let lines = OutputFormat::Csv.handle_stats(&stats);
    assert_eq!(lines.len(), 2);
    assert_eq!(lines[0], "\"parsed\", \"failed\"");
    assert_eq!(lines[1], "\"3\", \"2\"");
}

#[test]
fn parse_format_accepts_both_names_case_insensitively() {
    assert!(matches!(parse_format("json"), Ok(OutputFormat::Json)));
    assert!(matches!(parse_format("JSON"), Ok(OutputFormat::Json)));
    assert!(matches!(parse_format("Json"), Ok(OutputFormat::Json)));
    assert!(matches!(parse_format("csv"), Ok(OutputFormat::Csv)));
    assert!(matches!(parse_format("CsV"), Ok(OutputFormat::Csv)));
}

#[test]
fn parse_format_rejects_unknown_names() {
    match parse_format("xml").unwrap_err() {
        grok_lines::errors::RunError::Config(m) => {
            assert_eq!(m, "unable to parse output format: xml");
        },
        _ => panic!("an unknown format name is a configuration error"),
    }
    assert!(parse_format("").is_err());
    assert!(parse_format("jsonx").is_err());
}

#[test]
fn decimal_rendering() {
    assert_eq!(dec_str(0), "0");
    assert_eq!(dec_str(7), "7");
    assert_eq!(dec_str(10), "10");
    assert_eq!(dec_str(90210), "90210");
    assert_eq!(dec_str(u64::MAX), "18446744073709551615");
}
