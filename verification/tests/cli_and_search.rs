use deadcode::actions::find_python_filenames::{classify_path, PathDecision, PathKind};
use deadcode::actions::parse_tach_config::{tach_config_from_toml, TachIndex};
use deadcode::cli::{exit_decision, is_version_request, requests_version, run_output, ExitDecision};
use deadcode::data_types::Args;

fn strings(v: &[&str]) -> Vec<String> {
    v.iter().map(|s| s.to_string()).collect()
}

#[test]
fn version_flag_is_seen_in_given_or_process_arguments() {
    let given = strings(&[".", "--version"]);
    assert!(requests_version(Some(&given), &[]));
    assert!(requests_version(Some(&strings(&["."])), &strings(&["--version"])));
    assert!(!requests_version(Some(&strings(&["."])), &strings(&["x"])));
    assert!(requests_version(None, &strings(&["--version"])));
}

#[test]
fn version_exit_code_follows_the_given_arguments_first() {
    assert!(!is_version_request(Some(&strings(&["."])), &strings(&["--version"])));
    assert!(is_version_request(None, &strings(&["--version"])));
}

#[test]
fn report_and_diff_are_joined_by_a_blank_line() {
    assert_eq!(run_output(Some("report".to_string()), "diff", false), Some("report\n\ndiff".to_string()));
    assert_eq!(run_output(Some("report".to_string()), "", false), Some("report".to_string()));
    assert_eq!(run_output(None, "diff", false), None);
}

#[test]
fn a_file_that_cannot_be_parsed_fails_the_run_with_nothing_printed() {
    assert_eq!(run_output(None, "", true), Some(String::new()));
    assert_eq!(run_output(Some("report".to_string()), "", true), Some("report".to_string()));
    match exit_decision(run_output(None, "", true), false) {
        ExitDecision::Print { stdout, code } => {
            assert_eq!(code, 1);
            assert!(stdout.is_empty());
        }
        ExitDecision::Clean => panic!("a run with a parse failure is not clean"),
    }
}

#[test]
fn exit_codes() {
    assert!(matches!(exit_decision(None, false), ExitDecision::Clean));
    match exit_decision(Some(String::new()), false) {
        ExitDecision::Print { stdout, code } => {
            assert_eq!(stdout, "");
            assert_eq!(code, 1);
        },
        _ => panic!("expected a print"),
    }
    match exit_decision(Some("1.0".to_string()), true) {
        ExitDecision::Print { code, .. } => assert_eq!(code, 0),
        _ => panic!("expected a print"),
    }
}

#[test]
fn search_keeps_python_files_and_descends_into_directories() {
    let args = Args::default();
    let tach = TachIndex::new(vec![]);
    match classify_path(&args, &tach, "/w", "src/cli.py", PathKind::File) {
        PathDecision::PythonFile(p) => assert_eq!(p, "src/cli.py"),
        other => panic!("unexpected {:?}", other),
    }
    assert!(matches!(classify_path(&args, &tach, "/w", "README.md", PathKind::File), PathDecision::Skip));
    assert!(matches!(classify_path(&args, &tach, "/w", ".py", PathKind::File), PathDecision::Skip));
    assert!(matches!(classify_path(&args, &tach, "/w", "a.PY", PathKind::File), PathDecision::Skip));
    assert!(matches!(classify_path(&args, &tach, "/w", "src", PathKind::Dir), PathDecision::Descend));
    assert!(matches!(classify_path(&args, &tach, "/w", "nope", PathKind::Missing), PathDecision::NotFound));
}

#[test]
fn search_honours_exclude_and_tach() {
    let mut args = Args::default();
    args.exclude = strings(&["*/migrations/*"]);
    let config = tach_config_from_toml(
        "/",
        "/p/tach.toml",
        "source_roots = [\"src\"]\n\n[[modules]]\npath = \"legacy\"\nunchecked = true\n",
    )
    .unwrap();
    let tach = TachIndex::new(vec![config]);
    assert!(matches!(
        classify_path(&args, &tach, "/", "/p/src/migrations/0001.py", PathKind::File),
        PathDecision::Excluded
    ));
    assert!(matches!(
        classify_path(&args, &tach, "/", "/p/package.py", PathKind::File),
        PathDecision::OutsideSourceRoots
    ));
    assert!(matches!(
        classify_path(&args, &tach, "/", "/p/src/legacy.py", PathKind::File),
        PathDecision::UncheckedModule
    ));
    assert!(matches!(
        classify_path(&args, &tach, "/", "/p/src/core.py", PathKind::File),
        PathDecision::PythonFile(_)
    ));
}
