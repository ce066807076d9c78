use clap::{Arg, ArgAction, ArgMatches, Command};
use deadcode::actions::parse_arguments::{config_key, flatten_comma_list, parse_arguments_with_config};
use deadcode::data_types::Args;

const LIST_OPTIONS: &[&str] = &[
    "only",
    "exclude",
    "ignore-definitions",
    "ignore-definitions-if-decorated-with",
    "ignore-definitions-if-inherits-from",
    "ignore-bodies-of",
    "ignore-bodies-if-decorated-with",
    "ignore-bodies-if-inherits-from",
    "ignore-if-decorated-with",
    "ignore-if-inherits-from",
    "ignore-names",
    "ignore-names-if-decorated-with",
    "ignore-names-if-inherits-from",
    "ignore-names-in-files",
    "tach-config",
];

const FLAGS: &[&str] = &[
    "fix",
    "dry",
    "ignore-non-self-attributes",
    "ignore-class-attributes",
    "no-color",
    "quiet",
    "count",
    "version",
];

/// The command line as the `deadcode` binary declares it.
fn command() -> Command {
    let mut cmd = Command::new("deadcode")
        .disable_version_flag(true)
        .arg(Arg::new("paths").required(true).num_args(1..));
    for name in LIST_OPTIONS {
        cmd = cmd.arg(Arg::new(*name).long(*name).num_args(0..).action(ArgAction::Append));
    }
    for name in FLAGS {
        cmd = cmd.arg(Arg::new(*name).long(*name).action(ArgAction::SetTrue));
    }
    cmd.arg(Arg::new("verbose").short('v').long("verbose").action(ArgAction::SetTrue))
}

fn list(m: &ArgMatches, id: &str) -> Vec<String> {
    m.get_many::<String>(id).map(|v| v.cloned().collect()).unwrap_or_default()
}

fn cli_args(argv: &[&str]) -> Args {
    let mut full = vec!["deadcode"];
    full.extend_from_slice(argv);
    let m = command().try_get_matches_from(full).unwrap();
    let mut a = Args::default();
    a.paths = list(&m, "paths");
    a.only = list(&m, "only");
    a.exclude = list(&m, "exclude");
    a.ignore_definitions = list(&m, "ignore-definitions");
    a.ignore_definitions_if_decorated_with = list(&m, "ignore-definitions-if-decorated-with");
    a.ignore_definitions_if_inherits_from = list(&m, "ignore-definitions-if-inherits-from");
    a.ignore_bodies_of = list(&m, "ignore-bodies-of");
    a.ignore_bodies_if_decorated_with = list(&m, "ignore-bodies-if-decorated-with");
    a.ignore_bodies_if_inherits_from = list(&m, "ignore-bodies-if-inherits-from");
    a.ignore_if_decorated_with = list(&m, "ignore-if-decorated-with");
    a.ignore_if_inherits_from = list(&m, "ignore-if-inherits-from");
    a.ignore_names = list(&m, "ignore-names");
    a.ignore_names_if_decorated_with = list(&m, "ignore-names-if-decorated-with");
    a.ignore_names_if_inherits_from = list(&m, "ignore-names-if-inherits-from");
    a.ignore_names_in_files = list(&m, "ignore-names-in-files");
    a.tach_config = list(&m, "tach-config");
    a.fix = m.get_flag("fix");
    a.dry = m.get_flag("dry");
    a.ignore_non_self_attributes = m.get_flag("ignore-non-self-attributes");
    a.ignore_class_attributes = m.get_flag("ignore-class-attributes");
    a.no_color = m.get_flag("no-color");
    a.quiet = m.get_flag("quiet");
    a.count = m.get_flag("count");
    a.verbose = m.get_flag("verbose");
    a.version = m.get_flag("version");
    a
}

fn parse(argv: &[&str]) -> Args {
    parse_arguments_with_config(cli_args(argv), None)
}

#[test]
fn single_path_argument() {
    let args = parse(&["."]);
    assert_eq!(args.paths, vec!["."]);
    assert!(args.exclude.is_empty());
    assert!(args.ignore_names.is_empty());
}

#[test]
fn several_path_arguments() {
    let args = parse(&[".", "tests"]);
    assert_eq!(args.paths, vec![".", "tests"]);
}

#[test]
fn comma_separated_exclude() {
    let args = parse(&[".", "--exclude=tests,venv"]);
    assert_eq!(args.exclude, vec!["tests", "venv"]);
}

#[test]
fn repeated_exclude_flag_accumulates() {
    let args = parse(&[".", "--exclude=tests,venv", "--exclude=migrations"]);
    assert_eq!(args.exclude, vec!["tests", "venv", "migrations"]);
}

#[test]
fn no_color_flag() {
    assert!(parse(&[".", "--no-color"]).no_color);
}

#[test]
fn ignore_names_and_ignore_files_parsing() {
    let args = parse(&[
        ".",
        "--ignore-names-in-files=tests,venv",
        "--ignore-names=BaseTestCase,lambda_handler",
    ]);
    assert_eq!(args.ignore_names_in_files, vec!["tests", "venv"]);
    assert_eq!(args.ignore_names, vec!["BaseTestCase", "lambda_handler"]);
}

#[test]
fn verbose_long_and_short() {
    assert!(parse(&[".", "--verbose"]).verbose);
    assert!(parse(&[".", "-v"]).verbose);
}

#[test]
fn fix_flag() {
    let args = parse(&[".", "--fix"]);
    assert!(args.fix);
    assert!(!args.dry);
}

#[test]
fn dry_flag_defaults() {
    let args = parse(&[".", "--dry", "--verbose"]);
    assert!(args.dry);
    assert!(args.only.is_empty());
    assert!(args.verbose);
    assert!(!args.fix);
}

#[test]
fn dry_overrides_fix_even_when_both_passed() {
    let args = parse(&[".", "--dry", "--fix"]);
    assert!(args.dry);
    assert!(!args.fix);
}

#[test]
fn dry_with_single_only_filename() {
    let args = parse(&[".", "--dry", "--only", "foo.py", "--fix"]);
    assert_eq!(args.only, vec!["foo.py"]);
    assert!(args.dry);
    assert!(!args.fix);
}

#[test]
fn dry_with_two_space_separated_only_filenames() {
    let args = parse(&[".", "--fix", "--dry", "--only", "foo.py", "bar.py"]);
    assert_eq!(args.only, vec!["foo.py", "bar.py"]);
    assert!(!args.fix);
    assert!(args.dry);
}

#[test]
fn pyproject_toml_extends_cli_list_args() {
    let text = "[tool.deadcode]\nignore_names = [\"foo\", \"bar\"]\n";
    let args = parse_arguments_with_config(cli_args(&["."]), Some(text));
    assert_eq!(args.ignore_names, vec!["foo", "bar"]);
}

#[test]
fn missing_pyproject_toml_is_fine() {
    let args = parse(&["."]);
    assert!(args.ignore_names.is_empty());
}

#[test]
fn pyproject_keys_with_dashes_and_paths_are_merged() {
    let text = "[tool.deadcode]\n\"--ignore-names-in-files\" = [\"migrations\"]\nexclude = [\"a,b\", 3]\npaths = [\"src\"]\nverbose = true\n";
    let args = parse_arguments_with_config(cli_args(&[".", "--exclude=x,y"]), Some(text));
    assert_eq!(args.ignore_names_in_files, vec!["migrations"]);
    assert_eq!(args.exclude, vec!["x", "y", "a,b"]);
    assert_eq!(args.paths, vec![".", "src"]);
    assert!(!args.verbose);
}

#[test]
fn unparsable_pyproject_is_ignored() {
    let args = parse_arguments_with_config(cli_args(&["."]), Some("[tool.deadcode\nignore_names = ["));
    assert!(args.ignore_names.is_empty());
}

#[test]
fn comma_flattening_keeps_empty_pieces() {
    assert_eq!(flatten_comma_list(&["a,,b".to_string(), "".to_string()]), vec!["a", "", "b", ""]);
}

#[test]
fn config_keys_are_normalized() {
    assert_eq!(config_key("--ignore-names"), "ignore_names");
    assert_eq!(config_key("ignore_bodies_of"), "ignore_bodies_of");
}
