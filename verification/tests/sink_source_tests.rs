use grok_lines::errors::RunError;
use grok_lines::sink::{Output, WriteTarget};
use grok_lines::source::{FileSchedule, Input};

#[test]
fn no_path_means_console_destination() {
    let out = Output::try_from_path(None, false, false).unwrap();
    assert!(matches!(out, Output::Print));
}

#[test]
fn fresh_paths_open_a_file_destination() {
    let out = Output::try_from_path(Some("run.log".to_string()), false, false).unwrap();
    match out {
        Output::File { path, err_path } => {
            assert_eq!(path, "run.log");
            assert_eq!(err_path, "run.log.err");
        },
        Output::Print => panic!("expected a file destination"),
    }
}

#[test]
fn existing_data_path_is_a_conflict() {
    let e = Output::try_from_path(Some("run.log".to_string()), true, false).unwrap_err();
    match e {
        RunError::DestinationConflict { path, err_path, path_exists, err_exists } => {
            assert_eq!(path, "run.log");
            assert_eq!(err_path, "run.log.err");
            assert!(path_exists);
            assert!(!err_exists);
        },
        _ => panic!("expected a destination conflict"),
    }
}

#[test]
fn existing_error_sibling_is_a_conflict() {
    let e = Output::try_from_path(Some("run.log".to_string()), false, true).unwrap_err();
    assert!(matches!(e, RunError::DestinationConflict { err_exists: true, .. }));
    let both = Output::try_from_path(Some("run.log".to_string()), true, true).unwrap_err();
    assert!(matches!(
        both,
        RunError::DestinationConflict { path_exists: true, err_exists: true, .. }
    ));
}

#[test]
fn routing_is_exactly_once_per_record() {
    let out = Output::Print;
    let ok = out.output(Ok("good".to_string()));
    assert!(matches!(ok.target, WriteTarget::Stdout));
    assert_eq!(ok.text, "good");
    let err = out.output(Err("bad".to_string()));
    assert!(matches!(err.target, WriteTarget::Stderr));
    assert_eq!(err.text, "bad");
}

#[test]
fn paths_consumed_last_to_first() {
    // Given three input paths [a, b, c], the source exhausts c before b,
    // and b before a.
    let mut s = FileSchedule::new(vec!["a".to_string(), "b".to_string(), "c".to_string()]);
    assert!(!s.is_done());
    assert_eq!(s.next_path(), Some("c".to_string()));
    assert_eq!(s.next_path(), Some("b".to_string()));
    assert_eq!(s.next_path(), Some("a".to_string()));
    assert!(s.is_done());
    assert_eq!(s.next_path(), None);
}

#[test]
fn empty_path_list_reads_the_console() {
    let input = Input::from_paths(Vec::new());
    assert!(matches!(input, Input::Console));
    let files = Input::from_paths(vec!["one".to_string()]);
    assert!(matches!(files, Input::FileSequence(_)));
}
