use grok_lines::alias::read_aliases;
use grok_lines::fields::FieldMap;
use grok_lines::parser::{GrokParser, ParseOutcome};
use grok_lines::pipeline::Pipeline;
use grok_lines::render::OutputFormat;
use grok_lines::sink::{Output, SinkWrite, WriteTarget};

fn digits_parser() -> GrokParser {
    let lines = vec!["num ^[0-9]+$".to_string()];
    let table = read_aliases(&lines).unwrap();
    GrokParser::new("%{num}", Some(&table), true).unwrap()
}

fn is_stdout(w: &SinkWrite) -> bool {
    matches!(w.target, WriteTarget::Stdout)
}

fn is_stderr(w: &SinkWrite) -> bool {
    matches!(w.target, WriteTarget::Stderr)
}

#[test]
fn every_line_counted_once() {
    // Five lines, three matching and two not: the counters account for
    // every line, and the stats render exactly as required.
    let mut p = Pipeline::new(digits_parser(), OutputFormat::Json, Output::Print);
    let lines = vec![
        "123\n".to_string(),
        "abc\n".to_string(),
        "45\n".to_string(),
        "x9\n".to_string(),
        "6\n".to_string(),
    ];
    let writes = p.run_batch(&lines);
    assert_eq!(writes.len(), 5);
    let stats = p.stats();
    assert_eq!(stats.parsed, 3);
    assert_eq!(stats.failed, 2);
    let final_writes = p.finish(true);
    assert_eq!(final_writes.len(), 1);
    assert_eq!(final_writes[0].text, "{\"parsed\":3,\"failed\":2}");
    assert!(is_stdout(&final_writes[0]));
}

#[test]
fn finish_without_stats_writes_nothing() {
    let p = Pipeline::new(digits_parser(), OutputFormat::Json, Output::Print);
    assert_eq!(p.finish(false).len(), 0);
}

#[test]
fn successes_and_failures_routed_to_their_channels() {
    let mut p = Pipeline::new(digits_parser(), OutputFormat::Json, Output::Print);
    let ok_writes = p.step("77\n");
    assert_eq!(ok_writes.len(), 1);
    assert!(is_stdout(&ok_writes[0]));
    assert_eq!(ok_writes[0].text, "{\"num\":\"77\"}");
    let err_writes = p.step("nope\n");
    assert_eq!(err_writes.len(), 1);
    assert!(is_stderr(&err_writes[0]));
    assert_eq!(err_writes[0].text, "No matches against data: \"nope\"");
}

#[test]
fn file_destination_routing() {
    let out = Output::try_from_path(Some("data.log".to_string()), false, false).unwrap();
    let mut p = Pipeline::new(digits_parser(), OutputFormat::Json, out);
    let ok_writes = p.step("5");
    match &ok_writes[0].target {
        WriteTarget::AppendFile(path) => assert_eq!(path, "data.log"),
        other => panic!("wrong target: {:?} unexpected", matches!(other, WriteTarget::Stdout)),
    }
    let err_writes = p.step("bad");
    match &err_writes[0].target {
        WriteTarget::AppendFile(path) => assert_eq!(path, "data.log.err"),
        _ => panic!("failure must go to the error sibling"),
    }
}

#[test]
fn csv_header_emitted_once_from_first_match() {
    let mut p = Pipeline::new(digits_parser(), OutputFormat::Csv, Output::Print);
    let first = p.step("12\n");
    assert_eq!(first.len(), 2);
    assert_eq!(first[0].text, "\"num\"");
    assert_eq!(first[1].text, "\"12\"");
    let second = p.step("34\n");
    assert_eq!(second.len(), 1);
    assert_eq!(second[0].text, "\"34\"");
    let failed = p.step("zz\n");
    assert_eq!(failed.len(), 1);
    assert!(is_stderr(&failed[0]));
}

#[test]
fn csv_header_not_rederived_for_differing_field_sets() {
    // The column order is fixed by the first matched record; a later
    // record with different fields is rendered against its own keys but
    // triggers no new header.
    let mut p = Pipeline::new(digits_parser(), OutputFormat::Csv, Output::Print);
    let mut first = FieldMap::new();
    first.insert("b".to_string(), "2".to_string());
    first.insert("a".to_string(), "1".to_string());
    let w1 = p.route_outcome(ParseOutcome::Matched(first));
    assert_eq!(w1.len(), 2);
    assert_eq!(w1[0].text, "\"a\", \"b\"");
    assert_eq!(w1[1].text, "\"1\", \"2\"");
    let mut second = FieldMap::new();
    second.insert("c".to_string(), "3".to_string());
    let w2 = p.route_outcome(ParseOutcome::Matched(second));
    assert_eq!(w2.len(), 1);
    assert_eq!(w2[0].text, "\"3\"");
}

#[test]
fn csv_failures_never_become_rows() {
    let mut p = Pipeline::new(digits_parser(), OutputFormat::Csv, Output::Print);
    let w = p.step("not a number\n");
    assert_eq!(w.len(), 1);
    assert!(is_stderr(&w[0]));
    assert_eq!(w[0].text, "No matches against data: \"not a number\"");
    // No match yet, so no header has been fixed either.
    let first = p.step("900\n");
    assert_eq!(first.len(), 2);
    assert_eq!(first[0].text, "\"num\"");
}

#[test]
fn csv_stats_block() {
    let mut p = Pipeline::new(digits_parser(), OutputFormat::Csv, Output::Print);
    p.step("1\n");
    p.step("oops\n");
    let w = p.finish(true);
    assert_eq!(w.len(), 2);
    assert_eq!(w[0].text, "\"parsed\", \"failed\"");
    assert_eq!(w[1].text, "\"1\", \"1\"");
    assert!(is_stdout(&w[0]) && is_stdout(&w[1]));
}
