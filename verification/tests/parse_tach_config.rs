use deadcode::actions::parse_tach_config::{
    dotted_dir_path, dotted_module_name, match_any_dotted_glob, merge_domain_config,
    tach_config_from_toml, TachConfig, TachIndex, TachInterface, TachModule,
};

fn s(v: &str) -> String {
    v.to_string()
}

#[test]
fn dotted_glob_single_star_matches_one_segment() {
    assert!(match_any_dotted_glob(&[s("libs.*")], "libs.module"));
    assert!(!match_any_dotted_glob(&[s("libs.*")], "libs.module.sub"));
}

#[test]
fn dotted_glob_double_star_matches_any_depth() {
    assert!(match_any_dotted_glob(&[s("libs.**")], "libs.module.sub"));
    assert!(match_any_dotted_glob(&[s("libs.**")], "libs.module"));
    assert!(!match_any_dotted_glob(&[s("libs.**")], "libs"));
    assert!(!match_any_dotted_glob(&[s("libs.**")], "other.module"));
}

#[test]
fn dotted_glob_literal_exact_match_only() {
    assert!(match_any_dotted_glob(&[s("libs.module")], "libs.module"));
    assert!(!match_any_dotted_glob(&[s("libs.module")], "libs.module2"));
}

#[test]
fn dotted_module_path_basic() {
    let roots = vec![s("/src")];
    assert_eq!(dotted_module_name("/", "/src/pkg/mod.py", &roots), Some(s("pkg.mod")));
}

#[test]
fn dotted_module_path_init_collapses() {
    let roots = vec![s("/src")];
    assert_eq!(dotted_module_name("/", "/src/pkg/__init__.py", &roots), Some(s("pkg")));
}

#[test]
fn dotted_module_path_outside_roots_is_none() {
    let roots = vec![s("/src")];
    assert_eq!(dotted_module_name("/", "/other/mod.py", &roots), None);
}

#[test]
fn dotted_module_path_longest_root_wins() {
    let roots = vec![s("/proj"), s("/proj/src")];
    assert_eq!(dotted_module_name("/", "/proj/src/pkg/mod.py", &roots), Some(s("pkg.mod")));
}

#[test]
fn empty_index_never_restricts() {
    let index = TachIndex::new(vec![]);
    assert!(!index.is_outside_source_roots("/", "/anything"));
}

#[test]
fn relative_file_is_resolved_against_the_working_directory() {
    let roots = vec![s("/proj/src")];
    assert_eq!(dotted_module_name("/proj", "src/pkg/mod.py", &roots), Some(s("pkg.mod")));
    assert_eq!(dotted_module_name("/proj", "./src/./pkg/../pkg/mod.py", &roots), Some(s("pkg.mod")));
}

#[test]
fn root_package_init_has_no_module_name() {
    let roots = vec![s("/src")];
    assert_eq!(dotted_module_name("/", "/src/__init__.py", &roots), None);
    assert_eq!(dotted_module_name("/", "/src/data.txt", &roots), None);
}

fn project(interfaces: Vec<TachInterface>, modules: Vec<TachModule>) -> TachIndex {
    TachIndex::new(vec![TachConfig {
        source_roots: vec![s("/p")],
        project_root: Some(s("/p")),
        modules,
        interfaces,
    }])
}

#[test]
fn interface_exposure_by_name() {
    let index = project(
        vec![TachInterface { expose: vec![s("get_data")], from_patterns: Some(vec![s("core")]) }],
        vec![],
    );
    assert!(index.is_exposed("/", "/p/core.py", None, "get_data"));
    assert!(!index.is_exposed("/", "/p/core.py", None, "helper"));
    assert!(!index.is_exposed("/", "/p/other.py", None, "get_data"));
}

#[test]
fn interface_exposure_of_class_members() {
    let index = project(
        vec![TachInterface {
            expose: vec![s("MyClassInterface._some_method"), s("*Interface.get_*")],
            from_patterns: None,
        }],
        vec![],
    );
    assert!(index.is_exposed("/", "/p/core.py", Some("MyClassInterface"), "_some_method"));
    assert!(index.is_exposed("/", "/p/core.py", Some("OtherInterface"), "get_value"));
    assert!(!index.is_exposed("/", "/p/core.py", Some("OtherClass"), "get_data"));
    assert!(!index.is_exposed("/", "/p/core.py", Some("MyInterface"), "set_data"));
    assert!(!index.is_exposed("/", "/p/core.py", None, "get_data"));
}

#[test]
fn exposure_entry_is_an_anchored_regex() {
    let index = project(
        vec![TachInterface { expose: vec![s("get_.*")], from_patterns: None }],
        vec![],
    );
    assert!(index.is_exposed("/", "/p/core.py", None, "get_data"));
    assert!(!index.is_exposed("/", "/p/core.py", None, "xget_data"));
}

#[test]
fn unchecked_module_matching() {
    let index = project(
        vec![],
        vec![TachModule { path_patterns: vec![s("legacy")], unchecked: true }],
    );
    assert!(index.is_unchecked("/", "/p/legacy.py"));
    assert!(!index.is_unchecked("/", "/p/core.py"));
}

#[test]
fn files_outside_source_roots() {
    let index = TachIndex::new(vec![TachConfig {
        source_roots: vec![s("/p/src")],
        project_root: Some(s("/p")),
        modules: vec![],
        interfaces: vec![],
    }]);
    assert!(!index.is_outside_source_roots("/", "/p/src/core.py"));
    assert!(index.is_outside_source_roots("/", "/p/package.py"));
    assert!(!index.is_outside_source_roots("/", "/p"));
    assert!(!index.is_outside_source_roots("/", "/"));
    assert!(!index.is_outside_source_roots("/", "/elsewhere/x.py"));
}

fn index_from(text: &str) -> TachIndex {
    TachIndex::new(vec![tach_config_from_toml("/", "/p/tach.toml", text).unwrap()])
}

#[test]
fn source_roots_default_to_tach_toml_directory() {
    let config = tach_config_from_toml("/", "/p/tach.toml", "").unwrap();
    assert_eq!(config.source_roots, vec![s("/p")]);
    assert_eq!(config.project_root, Some(s("/p")));
    let index = TachIndex::new(vec![config]);
    assert!(!index.is_outside_source_roots("/", "/p"));
}

#[test]
fn file_next_to_source_root_is_outside() {
    let index = index_from("source_roots = [\"src\"]\n");
    assert!(!index.is_outside_source_roots("/", "/p/src/core.py"));
    assert!(index.is_outside_source_roots("/", "/p/package.py"));
}

#[test]
fn relative_config_path_resolves_against_working_directory() {
    let config = tach_config_from_toml("/work", "proj/tach.toml", "source_roots = [\"../lib\"]\n").unwrap();
    assert_eq!(config.project_root, Some(s("/work/proj")));
    assert_eq!(config.source_roots, vec![s("/work/lib")]);
}

#[test]
fn interface_exposure_end_to_end() {
    let index = index_from(
        "source_roots = [\".\"]\n\n[[interfaces]]\nexpose = [\"get_data\"]\nfrom = [\"core\"]\n",
    );
    assert!(index.is_exposed("/", "/p/core.py", None, "get_data"));
    assert!(!index.is_exposed("/", "/p/core.py", None, "helper"));
}

#[test]
fn class_method_interface_exposure_end_to_end() {
    let index = index_from(
        "source_roots = [\".\"]\n\n[[interfaces]]\nexpose = [\"MyClassInterface._some_method\", \"MyClassInterface.get_data\"]\nfrom = [\"core\"]\n",
    );
    let file = "/p/core.py";
    assert!(index.is_exposed("/", file, Some("MyClassInterface"), "_some_method"));
    assert!(index.is_exposed("/", file, Some("MyClassInterface"), "get_data"));
    assert!(!index.is_exposed("/", file, Some("OtherClass"), "get_data"));
    assert!(!index.is_exposed("/", file, Some("MyClassInterface"), "other_method"));
    assert!(!index.is_exposed("/", file, None, "get_data"));
}

#[test]
fn class_method_interface_exposure_supports_glob_on_both_segments() {
    let index = index_from(
        "source_roots = [\".\"]\n\n[[interfaces]]\nexpose = [\"*Interface.get_*\"]\nfrom = [\"core\"]\n",
    );
    let file = "/p/core.py";
    assert!(index.is_exposed("/", file, Some("MyInterface"), "get_data"));
    assert!(index.is_exposed("/", file, Some("OtherInterface"), "get_value"));
    assert!(!index.is_exposed("/", file, Some("MyInterface"), "set_data"));
    assert!(!index.is_exposed("/", file, Some("MyClass"), "get_data"));
}

#[test]
fn unchecked_module_end_to_end() {
    let index = index_from(
        "source_roots = [\".\"]\n\n[[modules]]\npath = \"legacy\"\nunchecked = true\n",
    );
    assert!(index.is_unchecked("/", "/p/legacy.py"));
    assert!(!index.is_unchecked("/", "/p/core.py"));
}

#[test]
fn interfaces_without_exposed_names_are_dropped() {
    let config = tach_config_from_toml(
        "/",
        "/p/tach.toml",
        "[[interfaces]]\nexpose = []\n\n[[interfaces]]\nexpose = [\"a\", 1]\n\n[[modules]]\npaths = [\"x\", \"y\"]\n\n[[modules]]\nunchecked = true\n",
    )
    .unwrap();
    assert_eq!(config.interfaces.len(), 1);
    assert_eq!(config.interfaces[0].expose, vec![s("a")]);
    assert_eq!(config.interfaces[0].from_patterns, None);
    assert_eq!(config.modules.len(), 1);
    assert_eq!(config.modules[0].path_patterns, vec![s("x"), s("y")]);
    assert!(!config.modules[0].unchecked);
}

#[test]
fn unparsable_tach_config_is_refused() {
    assert!(tach_config_from_toml("/", "/p/tach.toml", "[[modules").is_none());
}

#[test]
fn domain_toml_merging_end_to_end() {
    let mut config = tach_config_from_toml("/", "/p/tach.toml", "source_roots = [\".\"]\n").unwrap();
    let merged = merge_domain_config(
        &mut config,
        "/",
        "/p/tach/filesystem/tach.domain.toml",
        "/p",
        "[[modules]]\npath = \"service\"\nunchecked = true\n\n[[interfaces]]\nexpose = [\"api\"]\nfrom = [\"\"]\n\n[root]\nunchecked = true\n",
    );
    assert!(merged);
    let index = TachIndex::new(vec![config]);
    assert!(index.is_unchecked("/", "/p/tach/filesystem/service.py"));
    assert!(index.is_unchecked("/", "/p/tach/filesystem/__init__.py"));
    assert!(index.is_exposed("/", "/p/tach/filesystem/__init__.py", None, "api"));
    assert!(!index.is_exposed("/", "/p/tach/filesystem/service.py", None, "api"));
}

#[test]
fn domain_entries_resolve_against_the_domain_path() {
    let mut config = tach_config_from_toml("/", "/p/tach.toml", "").unwrap();
    assert!(merge_domain_config(
        &mut config,
        "/",
        "/p/a/b/tach.domain.toml",
        "/p",
        "[[modules]]\npaths = [\"//top.level\", \"inner\"]\n",
    ));
    assert_eq!(config.modules[0].path_patterns, vec![s("top.level"), s("a.b.inner")]);
    assert!(!merge_domain_config(&mut config, "/", "/p/x/tach.domain.toml", "/p", "[["));
    assert_eq!(config.modules.len(), 1);
}

#[test]
fn dotted_dir_paths() {
    assert_eq!(dotted_dir_path("/", "/p/a/b", "/p"), "a.b");
    assert_eq!(dotted_dir_path("/", "/p", "/p"), "");
    assert_eq!(dotted_dir_path("/", "/q/a", "/p"), "");
}
