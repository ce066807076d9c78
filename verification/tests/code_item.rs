use deadcode::constants::UnusedCodeType;
use deadcode::visitor::code_item::{path_as_posix, CodeItem};

#[test]
fn filename_with_position_no_line() {
    let item = CodeItem::new(
        "Foo".into(),
        UnusedCodeType::Variable,
        "foo.py".to_string(),
        vec![],
        None,
        None,
        None,
        None,
        String::new(),
    );
    assert_eq!(item.filename_with_position(), "foo.py");
}

#[test]
fn filename_with_position_line_and_column() {
    let item = CodeItem::new(
        "Foo".into(),
        UnusedCodeType::Variable,
        "foo.py".to_string(),
        vec![],
        None,
        None,
        Some(3),
        Some(4),
        String::new(),
    );
    assert_eq!(item.filename_with_position(), "foo.py:3:4:");
}

#[test]
fn filename_with_position_line_only() {
    let item = CodeItem::new(
        "Foo".into(),
        UnusedCodeType::Variable,
        "a\\b.py".to_string(),
        vec![],
        None,
        None,
        Some(120),
        None,
        String::new(),
    );
    assert_eq!(item.filename_with_position(), "a/b.py:120");
}

#[test]
fn posix_paths_and_error_codes() {
    assert_eq!(path_as_posix("a\\b\\c.py"), "a/b/c.py");
    assert_eq!(UnusedCodeType::Method.error_code(), "DC04");
    assert_eq!(UnusedCodeType::UnusedFile.error_code(), "DC11");
    assert_eq!(UnusedCodeType::UnreachableCode.display_name(), "Unreachable code");
}
