use grok_lines::alias::{read_aliases, AliasTable};
use grok_lines::errors::RunError;
use grok_lines::parser::{GrokParser, ParseOutcome};
use grok_lines::stats::Stats;

#[test]
fn custom_alias_compiles_and_extracts() {
    // A patterns directory holding `client \d+\.\d+\.\d+\.\d+`, compiled as
    // the only available fragment, must match an address line.
    let lines = vec!["client \\d+\\.\\d+\\.\\d+\\.\\d+".to_string()];
    let table = read_aliases(&lines).unwrap();
    let parser = GrokParser::new("%{client}", Some(&table), true).unwrap();
    let mut stats = Stats::new();
    match parser.parse("client 10.0.0.1", &mut stats) {
        ParseOutcome::Matched(fm) => {
            assert_eq!(fm.len(), 1);
            assert_eq!(fm.get("client"), Some(&"10.0.0.1".to_string()));
        },
        ParseOutcome::Failed { reason, .. } => panic!("expected a match, got: {}", reason),
    }
    assert_eq!(stats.parsed, 1);
    assert_eq!(stats.failed, 0);
}

#[test]
fn unknown_fragment_fails_at_compile_time() {
    // With no default fragments and an empty alias table, any template
    // referencing a fragment must fail before a single line is read.
    let table = AliasTable::new();
    match GrokParser::new("%{USER}", Some(&table), true) {
        Ok(_) => panic!("an undefined fragment must not compile"),
        Err(e) => assert!(matches!(e, RunError::Compile(_))),
    }
}

#[test]
fn default_fragments_available_without_patterns_directory() {
    let parser = GrokParser::new("%{USERNAME}", None, false).unwrap();
    let mut stats = Stats::new();
    match parser.parse("root", &mut stats) {
        ParseOutcome::Matched(fm) => {
            assert_eq!(fm.get("USERNAME"), Some(&"root".to_string()));
        },
        ParseOutcome::Failed { reason, .. } => panic!("expected a match, got: {}", reason),
    }
}

#[test]
fn no_match_is_recoverable_and_counted() {
    let lines = vec!["num ^[0-9]+$".to_string()];
    let table = read_aliases(&lines).unwrap();
    let parser = GrokParser::new("%{num}", Some(&table), true).unwrap();
    let mut stats = Stats::new();
    match parser.parse("letters\n", &mut stats) {
        ParseOutcome::Matched(_) => panic!("must not match"),
        ParseOutcome::Failed { reason, raw } => {
            assert_eq!(reason, "No matches against data: \"letters\"");
            assert_eq!(raw, "letters\n");
        },
    }
    assert_eq!(stats.parsed, 0);
    assert_eq!(stats.failed, 1);
}

#[test]
fn unicode_whitespace_trimmed_before_matching() {
    // The end trim removes the whole Unicode white-space set, as the
    // reference line reader's trimming does.
    let lines = vec!["num ^[0-9]+$".to_string()];
    let table = read_aliases(&lines).unwrap();
    let parser = GrokParser::new("%{num}", Some(&table), true).unwrap();
    let mut stats = Stats::new();
    match parser.parse("77\u{a0}\u{2003}\n", &mut stats) {
        ParseOutcome::Matched(fm) => {
            assert_eq!(fm.get("num"), Some(&"77".to_string()));
        },
        ParseOutcome::Failed { reason, .. } => panic!("expected a match, got: {}", reason),
    }
}

#[test]
fn matcher_sees_line_trimmed_at_end() {
    let lines = vec!["num ^[0-9]+$".to_string()];
    let table = read_aliases(&lines).unwrap();
    let parser = GrokParser::new("%{num}", Some(&table), true).unwrap();
    let mut stats = Stats::new();
    match parser.parse("123\n", &mut stats) {
        ParseOutcome::Matched(fm) => {
            assert_eq!(fm.get("num"), Some(&"123".to_string()));
        },
        ParseOutcome::Failed { reason, .. } => panic!("expected a match, got: {}", reason),
    }
}
