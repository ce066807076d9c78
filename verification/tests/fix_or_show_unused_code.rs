use deadcode::actions::fix_or_show_unused_code::{
    group_parts_by_file, join_diffs, plan_file_fix, readlines, FileFix,
};
use deadcode::constants::UnusedCodeType;
use deadcode::data_types::{Args, Part};
use deadcode::visitor::code_item::CodeItem;

fn item(filename: &str, name: &str, type_: UnusedCodeType, part: Part) -> CodeItem {
    CodeItem::new(
        name.to_string(),
        type_,
        filename.to_string(),
        vec![part],
        None,
        None,
        Some(part.line_start),
        Some(part.col_start),
        String::new(),
    )
}

/// Runs the planning over in-memory files: what would be shown, and what
/// would happen to each file.
fn fix_or_show(items: &[CodeItem], files: &[(&str, &str)], args: &Args) -> (String, Vec<(String, FileFix)>) {
    let mut shown: Vec<Vec<u8>> = Vec::new();
    let mut actions = Vec::new();
    for (filename, parts) in group_parts_by_file(items) {
        let content = match files.iter().find(|(f, _)| *f == filename) {
            Some((_, c)) => c.as_bytes().to_vec(),
            None => continue,
        };
        match plan_file_fix(&filename, &parts, &content, args) {
            FileFix::Show(diff) => shown.push(diff),
            other => actions.push((filename.clone(), other)),
        }
    }
    (join_diffs(&shown), actions)
}

#[test]
fn dry_run_produces_expected_unified_diff() {
    let f = "/tmp/project/foo.py";
    let content = "class UnusedClass:\n    pass\n\nprint(\"Dont change this file\")\n";
    let items = vec![item(f, "UnusedClass", UnusedCodeType::Class, Part::new(1, 3, 0, 0))];
    let mut args = Args::default();
    args.dry = true;
    args.no_color = true;
    let (output, actions) = fix_or_show(&items, &[(f, content)], &args);
    let expected = format!(
        "--- {f}\n+++ {f}\n@@ -1,4 +1 @@\n-class UnusedClass:\n-    pass\n-\n print(\"Dont change this file\")\n",
        f = f
    );
    assert_eq!(output, expected);
    assert!(actions.is_empty());
}

#[test]
fn fix_writes_updated_content_and_removes_empty_file() {
    let f = "/tmp/project/foo.py";
    let items = vec![item(f, "MyTest", UnusedCodeType::Class, Part::new(1, 2, 0, 8))];
    let mut args = Args::default();
    args.fix = true;
    let (output, actions) = fix_or_show(&items, &[(f, "class MyTest:\n    pass\n")], &args);
    assert_eq!(output, "");
    assert_eq!(actions.len(), 1);
    assert!(matches!(actions[0].1, FileFix::Remove));
}

#[test]
fn fix_writes_the_remaining_content() {
    let f = "/tmp/project/foo.py";
    let items = vec![item(f, "Foo", UnusedCodeType::Class, Part::new(1, 3, 0, 0))];
    let mut args = Args::default();
    args.fix = true;
    let (_, actions) = fix_or_show(&items, &[(f, "class Foo:\n    pass\n\nx = 1\n")], &args);
    match &actions[0].1 {
        FileFix::Write(content) => assert_eq!(content, b"x = 1\n"),
        other => panic!("unexpected {:?}", other),
    }
}

#[test]
fn only_filter_restricts_which_files_get_a_diff() {
    let foo = "/tmp/project/foo.py";
    let bar = "/tmp/project/bar.py";
    let items = vec![
        item(foo, "Foo", UnusedCodeType::Class, Part::new(1, 3, 0, 0)),
        item(bar, "Bar", UnusedCodeType::Class, Part::new(1, 3, 0, 0)),
    ];
    let mut args = Args::default();
    args.dry = true;
    args.no_color = true;
    args.only = vec![foo.to_string()];
    let (output, _) = fix_or_show(
        &items,
        &[(foo, "class Foo:\n    pass\n\nx = 1\n"), (bar, "class Bar:\n    pass\n\ny = 1\n")],
        &args,
    );
    assert!(output.contains(foo));
    assert!(!output.contains(bar));
}

#[test]
fn parts_are_grouped_by_file_in_name_order() {
    let items = vec![
        item("b.py", "x", UnusedCodeType::Variable, Part::new(1, 1, 0, 5)),
        item("a.py", "y", UnusedCodeType::Variable, Part::new(2, 2, 0, 5)),
        item("b.py", "z", UnusedCodeType::Variable, Part::new(3, 3, 0, 5)),
    ];
    let groups = group_parts_by_file(&items);
    assert_eq!(groups.len(), 2);
    assert_eq!(groups[0].0, "a.py");
    assert_eq!(groups[1].0, "b.py");
    assert_eq!(groups[1].1, vec![Part::new(1, 1, 0, 5), Part::new(3, 3, 0, 5)]);
}

#[test]
fn readlines_keeps_line_ends() {
    assert_eq!(readlines(b"a\nb"), vec![b"a\n".to_vec(), b"b".to_vec()]);
    assert_eq!(readlines(b"a\n\n"), vec![b"a\n".to_vec(), b"\n".to_vec()]);
    assert!(readlines(b"").is_empty());
}

#[test]
fn colored_diff_unless_no_color() {
    let f = "/tmp/project/foo.py";
    let items = vec![item(f, "Foo", UnusedCodeType::Class, Part::new(1, 3, 0, 0))];
    let mut args = Args::default();
    args.dry = true;
    let (output, _) = fix_or_show(&items, &[(f, "class Foo:\n    pass\n\nx = 1\n")], &args);
    assert!(output.contains("\x1b[31m-class Foo:\x1b[0m"));
}

#[test]
fn fixed_content_does_not_depend_on_part_order() {
    let content = b"import os\nimport sys\n\nx = 1\nprint(x)\n".to_vec();
    let mut args = Args::default();
    args.fix = true;
    let forward = vec![Part::new(1, 1, 0, 9), Part::new(2, 2, 0, 10)];
    let backward = vec![Part::new(2, 2, 0, 10), Part::new(1, 1, 0, 9)];
    let a = plan_file_fix("foo.py", &forward, &content, &args);
    let b = plan_file_fix("foo.py", &backward, &content, &args);
    match (a, b) {
        (FileFix::Write(x), FileFix::Write(y)) => {
            assert_eq!(x, y);
            let text = String::from_utf8(x).unwrap();
            assert!(!text.contains("import"));
            assert!(text.contains("x = 1\nprint(x)\n"));
        }
        other => panic!("expected two writes, got {:?}", other),
    }
}
