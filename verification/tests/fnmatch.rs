use deadcode::utils::fnmatch::{fnmatch, fnmatchcase, match_any, match_many, translate};

#[test]
fn literal_match() {
    assert!(fnmatchcase("foo.py", "foo.py"));
    assert!(!fnmatchcase("foo.py", "bar.py"));
}

#[test]
fn star_glob() {
    assert!(fnmatchcase("MyModel", "*Model"));
    assert!(fnmatchcase(
        "f*.py".replace('*', "oo").as_str(),
        "f*.py".replace('*', "oo").as_str()
    ));
    assert!(fnmatchcase("foo.py", "f*.py"));
    assert!(!fnmatchcase("bar.py", "f*.py"));
}

#[test]
fn bracket_class_and_group() {
    assert!(fnmatchcase("ThisClassShouldBeIgnored", "*[Ii]gnore*"));
    assert!(fnmatchcase("Unused", "Unused"));
    assert!(!fnmatchcase("Unused", "*[Ii]gnore*"));
}

#[test]
fn negated_class() {
    assert!(fnmatchcase("a", "[!b]"));
    assert!(!fnmatchcase("b", "[!b]"));
}

#[test]
fn case_sensitivity() {
    assert!(!fnmatchcase("FOO.PY", "foo.py"));
    assert!(fnmatch("FOO.PY", "foo.py"));
}

#[test]
fn question_mark_matches_single_char() {
    assert!(fnmatchcase("foo.py", "fo?.py"));
    assert!(!fnmatchcase("foo.py", "fo?"));
}

#[test]
fn translate_escapes_and_anchors() {
    assert_eq!(translate("a.b*"), "(?s)^a\\.b.*$");
    assert_eq!(translate("x[ab]?"), "(?s)^x[ab].$");
    assert_eq!(translate("[!c]"), "(?s)^[^c]$");
    assert_eq!(translate("a["), "(?s)^a\\[$");
    assert_eq!(translate("[!]"), "(?s)^\\[!\\]$");
}

#[test]
fn unterminated_class_is_a_literal_bracket() {
    assert!(fnmatchcase("a[", "a["));
    assert!(!fnmatchcase("ab", "a["));
}

#[test]
fn match_any_and_many() {
    let patterns = vec!["*.txt".to_string(), "foo*".to_string()];
    assert!(match_any("foobar", &patterns, true));
    assert!(!match_any("bar.py", &patterns, true));
    assert!(!match_any("anything", &[], true));
    let names = vec!["bar.py".to_string(), "notes.txt".to_string()];
    assert!(match_many(&names, &patterns, true));
    assert!(!match_many(&names[..1], &patterns, true));
}
