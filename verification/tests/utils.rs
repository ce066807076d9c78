use deadcode::utils::add_colors_to_diff::add_colors_to_diff;
use deadcode::utils::fix_indent::fix_indent;
use deadcode::utils::line_index::LineIndex;
use deadcode::utils::nested_scopes::NestedScope;
use deadcode::utils::path_utils::{resolve_path, strict_ancestors};

#[test]
fn colors_added_to_diff_lines() {
    let diff = b"--- foo.py\n+++ foo.py\n@@ -1,3 +1,2 @@\n-removed\n+added\n    pass";
    let result = add_colors_to_diff(diff);
    let expected = b"\x1b[31m--- foo.py\x1b[0m\n\x1b[32m+++ foo.py\x1b[0m\n@@ -1,3 +1,2 @@\n\x1b[31m-removed\x1b[0m\n\x1b[32m+added\x1b[0m\n    pass";
    assert_eq!(result, expected.to_vec());
}

#[test]
fn indentation_is_not_removed_from_second_line() {
    let input = b"class MyTest:\n    pass\n";
    assert_eq!(fix_indent(input).unwrap(), input.to_vec());
}

#[test]
fn common_indentation_is_removed() {
    let input = b"\n    def f():\n        pass\n";
    assert_eq!(fix_indent(input).unwrap(), b"def f():\n    pass\n".to_vec());
}

#[test]
fn tabs_are_expanded_to_eight_columns() {
    let input = b"a\n\tb\n";
    assert_eq!(fix_indent(input).unwrap(), b"a\n        b\n".to_vec());
}

#[test]
fn first_line_first_column() {
    let idx = LineIndex::new("abc\ndef\n");
    assert_eq!(idx.line_col(0), (1, 0));
}

#[test]
fn second_line() {
    let idx = LineIndex::new("abc\ndef\n");
    assert_eq!(idx.line_col(4), (2, 0));
    assert_eq!(idx.line_col(6), (2, 2));
}

#[test]
fn offset_at_exact_newline_boundary() {
    let idx = LineIndex::new("ab\ncd\nef");
    assert_eq!(idx.line_col(3), (2, 0));
    assert_eq!(idx.line_col(6), (3, 0));
}

fn parts(v: &[&str]) -> Vec<String> {
    v.iter().map(|s| s.to_string()).collect()
}

#[test]
fn direct_lookup_in_same_scope() {
    let mut scope = NestedScope::new();
    scope.add_class(&parts(&["mod"]), "Base", vec![]);
    assert_eq!(scope.get_inherits_from(&parts(&["mod"]), "Base"), Some(&vec![]));
}

#[test]
fn lookup_walks_up_to_parent_scope_once_the_path_exists() {
    let mut scope = NestedScope::new();
    scope.add_class(&parts(&["mod"]), "Base", vec![]);
    scope.add_class(&parts(&["mod", "Sub"]), "Other", vec![]);
    assert_eq!(scope.get_inherits_from(&parts(&["mod", "Sub"]), "Base"), Some(&vec![]));
}

#[test]
fn lookup_fails_if_intermediate_scope_path_was_never_established() {
    let mut scope = NestedScope::new();
    scope.add_class(&parts(&["mod"]), "Base", vec![]);
    assert_eq!(scope.get_inherits_from(&parts(&["mod", "Sub"]), "Base"), None);
}

#[test]
fn missing_name_returns_none() {
    let scope = NestedScope::new();
    assert_eq!(scope.get_inherits_from(&parts(&["mod"]), "Nope"), None);
}

#[test]
fn flattened_multi_level_chain() {
    let mut scope = NestedScope::new();
    scope.add_class(&parts(&["mod"]), "Foo", vec![]);
    scope.add_class(&parts(&["mod"]), "Bar", vec!["Foo".to_string()]);
    scope.add_class(&parts(&["mod"]), "Spam", vec!["Bar".to_string(), "Foo".to_string()]);
    assert_eq!(
        scope.get_inherits_from(&parts(&["mod"]), "Spam"),
        Some(&vec!["Bar".to_string(), "Foo".to_string()])
    );
}

#[test]
fn later_registration_shadows_earlier() {
    let mut scope = NestedScope::new();
    scope.add_class(&parts(&["mod"]), "Foo", vec!["A".to_string()]);
    scope.add_class(&parts(&["mod"]), "Foo", vec!["B".to_string()]);
    assert_eq!(scope.get_inherits_from(&parts(&["mod"]), "Foo"), Some(&vec!["B".to_string()]));
}

#[test]
fn strict_ancestors_excludes_self() {
    let ancestors = strict_ancestors("/a/b/c");
    assert_eq!(ancestors, vec!["/a/b".to_string(), "/a".to_string(), "/".to_string()]);
}

#[test]
fn collapses_dot_and_dotdot() {
    assert_eq!(resolve_path("/work", "/a/b/../c/./d"), "/a/c/d");
}

#[test]
fn relative_path_becomes_absolute() {
    let resolved = resolve_path("/work/dir", "foo");
    assert_eq!(resolved, "/work/dir/foo");
    assert_eq!(resolve_path("/work/dir", "../x"), "/work/x");
}

#[test]
fn lookup_finds_the_latest_registration_at_a_path() {
    let mut scope = NestedScope::new();
    scope.add_class(&parts(&["mod"]), "Model", vec!["Base".to_string()]);
    scope.add_class(&parts(&["mod"]), "Model", vec!["Other".to_string(), "Base".to_string()]);
    assert_eq!(
        scope.get_inherits_from(&parts(&["mod"]), "Model"),
        Some(&vec!["Other".to_string(), "Base".to_string()])
    );
}

#[test]
fn trim_removes_unicode_whitespace_at_both_ends() {
    assert_eq!(deadcode::utils::text::trim(" \t\u{3000}a b\u{a0}\n"), "a b");
    assert_eq!(deadcode::utils::text::trim(" \u{2028} "), "");
    assert_eq!(deadcode::utils::text::trim("x"), "x");
}

#[test]
fn paths_sort_component_by_component_keeping_equal_ones_in_order() {
    let paths = vec![
        "src/b/tach.domain.toml".to_string(),
        "src/a.b/tach.domain.toml".to_string(),
        "src/a/tach.domain.toml".to_string(),
        "src//a/tach.domain.toml".to_string(),
    ];
    let sorted = deadcode::utils::path_order::sort_paths(paths);
    assert_eq!(
        sorted,
        vec![
            "src/a/tach.domain.toml".to_string(),
            "src//a/tach.domain.toml".to_string(),
            "src/a.b/tach.domain.toml".to_string(),
            "src/b/tach.domain.toml".to_string(),
        ]
    );
}
