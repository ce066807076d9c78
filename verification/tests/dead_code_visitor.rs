use deadcode::actions::parse_tach_config::TachIndex;
use deadcode::data_types::Args;
use deadcode::visitor::code_item::CodeItem;
use deadcode::visitor::dead_code_visitor::DeadCodeVisitor;
use deadcode::visitor::python_ast::{
    Alias, Decorator, Expr, ExprContext, Parameters, Stmt,
};

fn name(id: &str, ctx: ExprContext, start: u32) -> Expr {
    Expr::Name { id: id.to_string(), ctx, start, end: start + id.len() as u32 }
}

fn load(id: &str, start: u32) -> Expr {
    name(id, ExprContext::Load, start)
}

fn assign(id: &str, start: u32, value: Expr) -> Stmt {
    Stmt::Assign { targets: vec![name(id, ExprContext::Store, start)], value: Box::new(value) }
}

fn call(func: Expr, args: Vec<Expr>) -> Expr {
    Expr::Call { func: Box::new(func), args, keywords: vec![] }
}

fn expr_stmt(e: Expr) -> Stmt {
    Stmt::ExprStmt { value: Box::new(e) }
}

fn no_parameters() -> Parameters {
    Parameters { posonlyargs: vec![], args: vec![], vararg: None, kwonlyargs: vec![], kwarg: None }
}

fn function(fname: &str, decorators: Vec<Decorator>, body: Vec<Stmt>, start: u32, end: u32) -> Stmt {
    Stmt::FunctionDef {
        name: fname.to_string(),
        parameters: Box::new(no_parameters()),
        decorator_list: decorators,
        return_annotation: None,
        body,
        start,
        end,
    }
}

fn class(cname: &str, body: Vec<Stmt>, start: u32, end: u32) -> Stmt {
    Stmt::ClassDef {
        name: cname.to_string(),
        bases: vec![],
        keywords: vec![],
        decorator_list: vec![],
        body,
        start,
        end,
    }
}

fn run(args: &Args, files: Vec<(&str, &str, Option<Vec<Stmt>>)>) -> (Vec<CodeItem>, Vec<String>) {
    let tach = TachIndex::new(vec![]);
    let mut visitor = DeadCodeVisitor::new(args, &tach, "/work");
    for (path, content, module) in files.iter() {
        if let Some(_) = visitor.prepare_file(path, content.as_bytes()) {
            visitor.visit_module(module.as_ref());
        }
    }
    let failures = visitor.parse_failures.clone();
    (visitor.get_unused_code_items(), failures)
}

fn names(items: &[CodeItem]) -> Vec<&str> {
    items.iter().map(|i| i.name.as_str()).collect()
}

#[test]
fn unused_variable_is_reported() {
    let module = vec![assign("unused_var", 0, Expr::NumberLiteral)];
    let (items, _) = run(&Args::default(), vec![("/work/foo.py", "unused_var = 1\n", Some(module))]);
    assert_eq!(names(&items), vec!["unused_var"]);
    assert_eq!(items[0].error_code(), "DC01");
    assert_eq!(items[0].name_line, Some(1));
    assert_eq!(items[0].name_column, Some(0));
}

#[test]
fn used_variable_is_not_reported() {
    let module = vec![
        assign("used_var", 0, Expr::NumberLiteral),
        expr_stmt(call(load("print", 13), vec![load("used_var", 19)])),
    ];
    let (items, _) = run(&Args::default(), vec![("/work/foo.py", "used_var = 1\nprint(used_var)\n", Some(module))]);
    assert!(items.is_empty());
}

#[test]
fn cross_file_aliased_import_usage_is_tracked() {
    let foo = vec![assign("used_var", 0, Expr::NoneLiteral)];
    let bar = vec![
        Stmt::ImportFrom {
            module: Some("foo".to_string()),
            names: vec![Alias {
                name: "used_var".to_string(),
                asname: Some("foo_var".to_string()),
                start: 16,
                end: 35,
            }],
        },
        expr_stmt(call(load("print", 37), vec![load("foo_var", 43)])),
    ];
    let (items, _) = run(
        &Args::default(),
        vec![
            ("/work/foo.py", "used_var = None\n", Some(foo)),
            ("/work/bar.py", "from foo import used_var as foo_var; print(foo_var)\n", Some(bar)),
        ],
    );
    assert!(items.is_empty());
}

#[test]
fn dunder_all_marks_names_as_used() {
    let module = vec![
        function("helper", vec![], vec![Stmt::Pass], 0, 22),
        Stmt::Assign {
            targets: vec![name("__all__", ExprContext::Store, 24)],
            value: Box::new(Expr::List { elts: vec![Expr::StringLiteral { value: "helper".to_string() }] }),
        },
    ];
    let (items, _) = run(
        &Args::default(),
        vec![("/work/foo.py", "def helper():\n    pass\n\n__all__ = ['helper']\n", Some(module))],
    );
    assert!(items.is_empty());
}

#[test]
fn getattr_string_arg_counts_as_usage() {
    let module = vec![
        class("Foo", vec![assign("bar", 15, Expr::NumberLiteral)], 0, 22),
        assign("f", 24, call(load("Foo", 28), vec![])),
        expr_stmt(call(
            load("getattr", 34),
            vec![load("f", 42), Expr::StringLiteral { value: "bar".to_string() }],
        )),
    ];
    let (items, _) = run(
        &Args::default(),
        vec![("/work/foo.py", "class Foo:\n    bar = 1\n\nf = Foo()\ngetattr(f, 'bar')\n", Some(module))],
    );
    assert!(items.is_empty());
}

#[test]
fn empty_file_reported_as_dc11() {
    let (items, _) = run(&Args::default(), vec![("/work/foo.py", "   \n\n", None)]);
    assert_eq!(names(&items), vec!["foo.py"]);
    assert_eq!(items[0].error_code(), "DC11");
    assert_eq!(items[0].message, "Empty file");
}

#[test]
fn dunder_init_file_never_treated_as_empty() {
    let (items, failures) = run(&Args::default(), vec![("/work/pkg/__init__.py", "", Some(vec![]))]);
    assert!(items.is_empty());
    assert!(failures.is_empty());
}

#[test]
fn syntax_error_is_silently_ignored_not_a_crash() {
    let (items, failures) = run(
        &Args::default(),
        vec![("/work/foo.py", "this is not valid python !!! ===\n", None)],
    );
    assert!(items.is_empty());
    assert_eq!(failures, vec!["/work/foo.py".to_string()]);
}

#[test]
fn noqa_specific_code_suppresses_matching_violation_only() {
    let module = vec![assign("unused_variable", 0, Expr::NumberLiteral)];
    let (items, _) = run(
        &Args::default(),
        vec![("/work/foo.py", "unused_variable = 1  # noqa: DC01\n", Some(module))],
    );
    assert!(items.is_empty());
}

#[test]
fn noqa_wrong_code_does_not_suppress() {
    let module = vec![assign("unused_variable", 0, Expr::NumberLiteral)];
    let (items, _) = run(
        &Args::default(),
        vec![("/work/foo.py", "unused_variable = 1  # noqa: DC02\n", Some(module))],
    );
    assert_eq!(names(&items), vec!["unused_variable"]);
}

#[test]
fn dead_code_visitor_ignore_definitions_glob_pattern() {
    let mut args = Args::default();
    args.ignore_definitions = vec!["Unused*".to_string()];
    let module = vec![class("UnusedClass", vec![Stmt::Pass], 0, 27)];
    let (items, _) = run(&args, vec![("/work/foo.py", "class UnusedClass:\n    pass\n", Some(module))]);
    assert!(items.is_empty());
}

#[test]
fn decorated_definition_is_reported_at_its_keyword() {
    // import pytest\n\n@pytest.fixture\ndef db():\n    return {}\n
    let decorator = Decorator {
        expression: Expr::Attribute {
            value: Box::new(load("pytest", 16)),
            attr: "fixture".to_string(),
            ctx: ExprContext::Load,
            start: 16,
            end: 30,
        },
        start: 15,
        end: 30,
    };
    let module = vec![
        Stmt::Import {
            names: vec![Alias { name: "pytest".to_string(), asname: None, start: 7, end: 13 }],
        },
        function(
            "db",
            vec![decorator],
            vec![Stmt::Return { value: Some(Box::new(Expr::Dict { items: vec![] })) }],
            15,
            54,
        ),
    ];
    let (items, _) = run(
        &Args::default(),
        vec![(
            "/work/myapp/helpers.py",
            "import pytest\n\n@pytest.fixture\ndef db():\n    return {}\n",
            Some(module),
        )],
    );
    assert_eq!(names(&items), vec!["db"]);
    assert_eq!(items[0].error_code(), "DC02");
    assert_eq!(items[0].name_line, Some(4));
    assert_eq!(items[0].name_column, Some(0));
    assert_eq!(items[0].code_parts[0].line_start, 3);
}

#[test]
fn report_is_ordered_by_file_then_line() {
    let a = vec![assign("zeta", 0, Expr::NumberLiteral), assign("alpha", 9, Expr::NumberLiteral)];
    let b = vec![assign("beta", 0, Expr::NumberLiteral)];
    let (items, _) = run(
        &Args::default(),
        vec![
            ("/work/a-b/x.py", "zeta = 1\nalpha = 2\n", Some(a)),
            ("/work/a/y.py", "beta = 1\n", Some(b)),
        ],
    );
    assert_eq!(names(&items), vec!["beta", "zeta", "alpha"]);
}

#[test]
fn attribute_uses_count_for_any_definition_of_that_name() {
    // foo.py: used_var = None / bar.py: import foo\nprint(foo.used_var)\n
    let foo = vec![assign("used_var", 0, Expr::NoneLiteral)];
    let bar = vec![
        Stmt::Import { names: vec![Alias { name: "foo".to_string(), asname: None, start: 7, end: 10 }] },
        expr_stmt(call(
            load("print", 11),
            vec![Expr::Attribute {
                value: Box::new(load("foo", 17)),
                attr: "used_var".to_string(),
                ctx: ExprContext::Load,
                start: 17,
                end: 29,
            }],
        )),
    ];
    let (items, _) = run(
        &Args::default(),
        vec![
            ("/work/foo.py", "used_var = None\n", Some(foo)),
            ("/work/bar.py", "import foo\nprint(foo.used_var)\n", Some(bar)),
        ],
    );
    assert!(items.is_empty());
}
