use deadcode::actions::remove_file_parts_from_content::{
    classify_import_stub, remove_file_parts_from_content, ImportStub,
};
use deadcode::data_types::Part;

fn lines(source: &str) -> Vec<Vec<u8>> {
    source
        .split_inclusive('\n')
        .map(|l| l.as_bytes().to_vec())
        .collect()
}

fn render(result: &[Vec<u8>]) -> String {
    String::from_utf8(result.concat()).unwrap()
}

#[test]
fn emptied_single_line_import_is_dropped() {
    let content = lines("import os\nprint(1)\n");
    let result = remove_file_parts_from_content(&content, &[Part::new(1, 1, 7, 9)]);
    assert_eq!(render(&result), "print(1)\n");
}

#[test]
fn emptied_from_import_is_dropped() {
    let content = lines("from foo import bar\nprint(1)\n");
    let result = remove_file_parts_from_content(&content, &[Part::new(1, 1, 16, 19)]);
    assert_eq!(render(&result), "print(1)\n");
}

#[test]
fn partially_emptied_import_is_kept() {
    let content = lines("import os, sys\nprint(sys)\n");
    let result = remove_file_parts_from_content(&content, &[Part::new(1, 1, 7, 9)]);
    assert_eq!(render(&result), "import sys\nprint(sys)\n");
}

#[test]
fn every_part_on_one_line_is_applied() {
    let content = lines("import os, sys\nprint(1)\n");
    let result = remove_file_parts_from_content(
        &content,
        &[Part::new(1, 1, 7, 9), Part::new(1, 1, 11, 14)],
    );
    assert_eq!(render(&result), "print(1)\n");
}

#[test]
fn same_line_parts_are_order_independent() {
    let content = lines("import os, sys\nprint(1)\n");
    let forward = remove_file_parts_from_content(
        &content,
        &[Part::new(1, 1, 7, 9), Part::new(1, 1, 11, 14)],
    );
    let reversed = remove_file_parts_from_content(
        &content,
        &[Part::new(1, 1, 11, 14), Part::new(1, 1, 7, 9)],
    );
    assert_eq!(render(&forward), render(&reversed));
}

#[test]
fn emptied_parenthesized_import_block_is_dropped() {
    let content = lines("from foo import (\n    a,\n)\nprint(1)\n");
    let result = remove_file_parts_from_content(&content, &[Part::new(2, 2, 4, 5)]);
    assert_eq!(render(&result), "print(1)\n");
}

#[test]
fn parenthesized_import_with_survivor_is_kept() {
    let content = lines("from foo import (\n    a,\n    b,\n)\nprint(b)\n");
    let result = remove_file_parts_from_content(&content, &[Part::new(2, 2, 4, 5)]);
    assert!(render(&result).contains("from foo import ("));
    assert!(render(&result).contains("b,"));
}

#[test]
fn classify_recognizes_only_genuine_stubs() {
    assert!(matches!(classify_import_stub(b"import\n"), ImportStub::Bare));
    assert!(matches!(classify_import_stub(b"from foo import\n"), ImportStub::Bare));
    assert!(matches!(classify_import_stub(b"from . import\n"), ImportStub::Bare));
    assert!(matches!(classify_import_stub(b"from foo import (\n"), ImportStub::OpenParen));
    assert!(matches!(classify_import_stub(b"import os\n"), ImportStub::NotAStub));
    assert!(matches!(classify_import_stub(b"from foo import bar\n"), ImportStub::NotAStub));
    assert!(matches!(classify_import_stub(b"x = 1\n"), ImportStub::NotAStub));
    assert!(matches!(classify_import_stub(b"from importlib import util\n"), ImportStub::NotAStub));
}

#[test]
fn stub_with_trailing_comment_is_recognized() {
    assert!(matches!(classify_import_stub(b"import   # leftover\n"), ImportStub::Bare));
}

#[test]
fn unrelated_lines_survive_the_stub_pass() {
    let content = lines("x = 1\ny = 2\n");
    let result = remove_file_parts_from_content(&content, &[]);
    assert_eq!(render(&result), "x = 1\ny = 2\n");
}

#[test]
fn removed_class_leaves_the_following_code() {
    let content = lines("class UnusedClass:\n    pass\n\nprint(\"Dont change this file\")\n");
    let result = remove_file_parts_from_content(&content, &[Part::new(1, 3, 0, 0)]);
    assert_eq!(render(&result), "print(\"Dont change this file\")\n");
}

#[test]
fn emptied_block_gets_pass() {
    let content = lines("if x:\n    y = 1\nprint(x)\n");
    let result = remove_file_parts_from_content(&content, &[Part::new(2, 2, 4, 9)]);
    assert_eq!(render(&result), "if x:\n    pass\nprint(x)\n");
}

#[test]
fn assignment_tail_goes_with_the_target() {
    let content = lines("a = b = 1\nprint(b)\n");
    let result = remove_file_parts_from_content(&content, &[Part::new(1, 1, 0, 1)]);
    assert_eq!(render(&result), "print(b)\n");
}

#[test]
fn stranded_as_is_removed() {
    let content = lines("with open(f) as fh:\n    print(1)\n");
    let result = remove_file_parts_from_content(&content, &[Part::new(1, 1, 16, 18)]);
    assert_eq!(render(&result), "with open(f):\n    print(1)\n");
}

#[test]
fn removing_nothing_keeps_lines_but_trailing_blank_ones() {
    let content = lines("x = 1\n\ny = 2\n\n  \t\n");
    let result = remove_file_parts_from_content(&content, &[]);
    assert_eq!(render(&result), "x = 1\n\ny = 2\n");
}
