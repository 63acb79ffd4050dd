use grok_lines::alias::{parse_alias_line, read_aliases, AliasTable};
use grok_lines::errors::RunError;

#[test]
fn alias_line_splits_at_first_space() {
    let (name, def) = parse_alias_line("client \\d+\\.\\d+\\.\\d+\\.\\d+").unwrap();
    assert_eq!(name, "client");
    assert_eq!(def, "\\d+\\.\\d+\\.\\d+\\.\\d+");
}

#[test]
fn alias_definition_leading_whitespace_trimmed() {
    let (name, def) = parse_alias_line("name \t  [a-z]+ with space").unwrap();
    assert_eq!(name, "name");
    assert_eq!(def, "[a-z]+ with space");
}

#[test]
fn alias_line_without_space_is_config_error() {
    let e = parse_alias_line("malformed").unwrap_err();
    assert!(matches!(e, RunError::Config(_)));
}

#[test]
fn read_aliases_collects_and_overrides() {
    let lines = vec![
        "client \\d+".to_string(),
        "".to_string(),
        "user [a-z]+".to_string(),
        "client \\d+\\.\\d+".to_string(),
    ];
    let table = read_aliases(&lines).unwrap();
    assert_eq!(table.len(), 2);
    assert_eq!(table.get("client"), Some(&"\\d+\\.\\d+".to_string()));
    assert_eq!(table.get("user"), Some(&"[a-z]+".to_string()));
}

#[test]
fn read_aliases_fails_on_malformed_line() {
    let lines = vec!["ok def".to_string(), "broken".to_string()];
    let e = read_aliases(&lines).unwrap_err();
    assert!(matches!(e, RunError::Config(_)));
}

#[test]
fn empty_alias_table() {
    let table = AliasTable::new();
    assert_eq!(table.len(), 0);
    assert_eq!(table.get("anything"), None);
}

#[test]
fn error_kind_labels() {
    assert_eq!(RunError::Config("x".to_string()).kind_label(), "configuration error");
    assert_eq!(RunError::Compile("x".to_string()).kind_label(), "pattern compile error");
    assert_eq!(RunError::Io("x".to_string()).kind_label(), "i/o error");
    let conflict = RunError::DestinationConflict {
        path: "p".to_string(),
        err_path: "p.err".to_string(),
        path_exists: true,
        err_exists: false,
    };
    assert_eq!(conflict.kind_label(), "destination conflict");
}
