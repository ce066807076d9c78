//! Whole-file scenarios: a Python file's syntax tree (written out by hand,
//! with the byte offsets its source gives) walked by the visitor, then
//! reported, counted or fixed as the command line would.

use deadcode::actions::find_python_filenames::{classify_path, PathDecision, PathKind};
use deadcode::actions::fix_or_show_unused_code::{group_parts_by_file, plan_file_fix, FileFix};
use deadcode::actions::get_unused_names_error_message::get_unused_names_error_message;
use deadcode::actions::parse_tach_config::TachIndex;
use deadcode::data_types::Args;
use deadcode::visitor::code_item::CodeItem;
use deadcode::visitor::dead_code_visitor::DeadCodeVisitor;
use deadcode::visitor::python_ast::{
    Alias, Decorator, Expr, ExprContext, Parameter, ParameterWithDefault, Parameters, Stmt,
};

const FILE: &str = "/work/foo.py";

/// The byte offset of the `n`-th occurrence of `needle` in `src`.
fn at(src: &str, needle: &str, n: usize) -> u32 {
    src.match_indices(needle).nth(n).unwrap().0 as u32
}

/// The byte offset just past the `n`-th occurrence of `needle` in `src`.
fn past(src: &str, needle: &str, n: usize) -> u32 {
    at(src, needle, n) + needle.len() as u32
}

fn name(src: &str, id: &str, n: usize, ctx: ExprContext) -> Expr {
    let start = at(src, id, n);
    Expr::Name { id: id.to_string(), ctx, start, end: start + id.len() as u32 }
}

fn load(src: &str, id: &str, n: usize) -> Expr {
    name(src, id, n, ExprContext::Load)
}

fn store(src: &str, id: &str, n: usize) -> Expr {
    name(src, id, n, ExprContext::Store)
}

fn assign(target: Expr, value: Expr) -> Stmt {
    Stmt::Assign { targets: vec![target], value: Box::new(value) }
}

fn params(names: &[&str]) -> Parameters {
    Parameters {
        posonlyargs: vec![],
        args: names
            .iter()
            .map(|n| ParameterWithDefault {
                parameter: Parameter { name: n.to_string(), annotation: None },
                default: None,
            })
            .collect(),
        vararg: None,
        kwonlyargs: vec![],
        kwarg: None,
    }
}

fn function(
    fname: &str,
    parameters: Parameters,
    decorator_list: Vec<Decorator>,
    body: Vec<Stmt>,
    start: u32,
    end: u32,
) -> Stmt {
    Stmt::FunctionDef {
        name: fname.to_string(),
        parameters: Box::new(parameters),
        decorator_list,
        return_annotation: None,
        body,
        start,
        end,
    }
}

fn class(cname: &str, bases: Vec<Expr>, body: Vec<Stmt>, start: u32, end: u32) -> Stmt {
    Stmt::ClassDef {
        name: cname.to_string(),
        bases,
        keywords: vec![],
        decorator_list: vec![],
        body,
        start,
        end,
    }
}

fn args_with(f: impl Fn(&mut Args)) -> Args {
    let mut a = Args::default();
    f(&mut a);
    a
}

/// Walks one file and returns the report's items.
fn unused(args: &Args, src: &str, module: Vec<Stmt>) -> Vec<CodeItem> {
    let tach = TachIndex::new(vec![]);
    let mut visitor = DeadCodeVisitor::new(args, &tach, "/work");
    if visitor.prepare_file(FILE, src.as_bytes()).is_some() {
        visitor.visit_module(Some(&module));
    }
    visitor.get_unused_code_items()
}

/// Walks several files and returns the report's items.
fn unused_in(args: &Args, files: Vec<(&str, &str, Vec<Stmt>)>) -> Vec<CodeItem> {
    let tach = TachIndex::new(vec![]);
    let mut visitor = DeadCodeVisitor::new(args, &tach, "/work");
    for (path, src, module) in files.iter() {
        if visitor.prepare_file(path, src.as_bytes()).is_some() {
            visitor.visit_module(Some(module));
        }
    }
    visitor.get_unused_code_items()
}

/// The options the command line gives: list values are split at commas.
fn cli(f: impl Fn(&mut Args)) -> Args {
    let mut a = Args::default();
    a.paths = vec![FILE.to_string()];
    f(&mut a);
    deadcode::actions::parse_arguments::parse_arguments_with_config(a, None)
}

/// `value.attr`, loaded, with `attr` the `n`-th occurrence in `src`.
fn attribute(src: &str, value: Expr, attr: &str, n: usize) -> Expr {
    let start = match &value {
        Expr::Name { start, .. } => *start,
        Expr::Attribute { start, .. } => *start,
        _ => at(src, attr, n),
    };
    Expr::Attribute {
        value: Box::new(value),
        attr: attr.to_string(),
        ctx: ExprContext::Load,
        start,
        end: past(src, attr, n),
    }
}

fn call0(func: Expr) -> Expr {
    Expr::Call { func: Box::new(func), args: vec![], keywords: vec![] }
}

fn expr_stmt(e: Expr) -> Stmt {
    Stmt::ExprStmt { value: Box::new(e) }
}

fn decorator(src: &str, expression: Expr, text: &str, n: usize) -> Decorator {
    Decorator { expression, start: at(src, text, n), end: past(src, text, n) }
}

fn decorated_class(cname: &str, decorators: Vec<Decorator>, body: Vec<Stmt>, start: u32, end: u32) -> Stmt {
    Stmt::ClassDef {
        name: cname.to_string(),
        bases: vec![],
        keywords: vec![],
        decorator_list: decorators,
        body,
        start,
        end,
    }
}

/// What the command prints for one file (`None`: nothing found).
fn report(args: &Args, src: &str, module: Vec<Stmt>) -> Option<String> {
    let items = unused(args, src, module);
    get_unused_names_error_message(&items, args)
}

/// What `--fix` does to the one file.
fn fix(src: &str, module: Vec<Stmt>) -> FileFix {
    let args = args_with(|a| a.fix = true);
    let items = unused(&args, src, module);
    let groups = group_parts_by_file(&items);
    assert_eq!(groups.len(), 1);
    plan_file_fix(&groups[0].0, &groups[0].1, src.as_bytes(), &args)
}

fn count(args: &Args) -> Args {
    let mut a = args.clone();
    a.count = true;
    a
}

#[test]
fn tuple_unpack_assignment_counts_every_name() {
    let src = "foo = None\nbar, spam, eggs = 1, 2, 3\n";
    let module = vec![
        assign(store(src, "foo", 0), Expr::NoneLiteral),
        assign(
            Expr::Tuple { elts: vec![store(src, "bar", 0), store(src, "spam", 0), store(src, "eggs", 0)] },
            Expr::Tuple { elts: vec![Expr::NumberLiteral, Expr::NumberLiteral, Expr::NumberLiteral] },
        ),
    ];
    assert_eq!(report(&count(&Args::default()), src, module), Some("4".to_string()));
}

#[test]
fn unused_function_with_used_argument_counts_only_the_function() {
    let src = "def unused_function(an_arg):\n    return an_arg\n";
    let module = vec![function(
        "unused_function",
        params(&["an_arg"]),
        vec![],
        vec![Stmt::Return { value: Some(Box::new(load(src, "an_arg", 1))) }],
        0,
        past(src, "an_arg", 1),
    )];
    assert_eq!(report(&count(&Args::default()), src, module), Some("1".to_string()));
}

#[test]
fn unused_class_members_and_subclass_counted() {
    let src = "class Foo:\n    bar = None\n    spam = None\n\n    def eggs(self):\n        return None\n\n\nclass Bar(Foo):\n    pass\n";
    let eggs = function(
        "eggs",
        params(&["self"]),
        vec![],
        vec![Stmt::Return { value: Some(Box::new(Expr::NoneLiteral)) }],
        at(src, "def eggs", 0),
        past(src, "return None", 0),
    );
    let module = vec![
        class(
            "Foo",
            vec![],
            vec![
                assign(store(src, "bar", 0), Expr::NoneLiteral),
                assign(store(src, "spam", 0), Expr::NoneLiteral),
                eggs,
            ],
            0,
            past(src, "return None", 0),
        ),
        class("Bar", vec![load(src, "Foo", 1)], vec![Stmt::Pass], at(src, "class Bar", 0), past(src, "pass", 0)),
    ];
    assert_eq!(report(&count(&Args::default()), src, module), Some("4".to_string()));
}

#[test]
fn lambda_assigned_to_a_name_counts_as_one() {
    let src = "my_func = lambda x: x\n";
    let lambda = Expr::Lambda {
        parameters: Some(Box::new(params(&["x"]))),
        body: Box::new(load(src, "x", 1)),
    };
    let module = vec![assign(store(src, "my_func", 0), lambda)];
    assert_eq!(report(&count(&Args::default()), src, module), Some("1".to_string()));
}

#[test]
fn class_is_removed_when_unused() {
    let src = "class Foo:\n    pass\n";
    let module = vec![class("Foo", vec![], vec![Stmt::Pass], 0, past(src, "pass", 0))];
    assert!(matches!(fix(src, module), FileFix::Remove));
}

#[test]
fn class_and_its_method_removed_when_unused() {
    let src = "class Foo:\n    def bar(self):\n        variable = 123\n";
    let end = past(src, "123", 0);
    let bar = function(
        "bar",
        params(&["self"]),
        vec![],
        vec![assign(store(src, "variable", 0), Expr::NumberLiteral)],
        at(src, "def bar", 0),
        end,
    );
    let module = vec![class("Foo", vec![], vec![bar], 0, end)];
    assert!(matches!(fix(src, module), FileFix::Remove));
}

#[test]
fn name_shadowing_tracks_each_occurrence_independently() {
    let src = "class Foo:\n    pass\n\n\nclass Foo:\n    pass\n";
    let module = || {
        vec![
            class("Foo", vec![], vec![Stmt::Pass], 0, past(src, "pass", 0)),
            class("Foo", vec![], vec![Stmt::Pass], at(src, "class Foo", 1), past(src, "pass", 1)),
        ]
    };
    assert_eq!(unused(&Args::default(), src, module()).len(), 2);
    assert!(matches!(fix(src, module()), FileFix::Remove));
}

#[test]
fn multi_level_inheritance_chain_is_tracked_for_ignore_flag() {
    let src = "class Foo:\n    pass\n\n\nclass Bar(Foo):\n    pass\n\n\nclass Spam(Bar):\n    pass\n";
    let module = vec![
        class("Foo", vec![], vec![Stmt::Pass], 0, past(src, "pass", 0)),
        class("Bar", vec![load(src, "Foo", 1)], vec![Stmt::Pass], at(src, "class Bar", 0), past(src, "pass", 1)),
        class("Spam", vec![load(src, "Bar", 1)], vec![Stmt::Pass], at(src, "class Spam", 0), past(src, "pass", 2)),
    ];
    let args = args_with(|a| {
        a.no_color = true;
        a.ignore_definitions_if_inherits_from = vec!["Foo".to_string()];
    });
    assert_eq!(report(&args, src, module), None);
}

#[test]
fn parent_scopes_considered_when_resolving_nested_class_bases() {
    let src = "class Foo:\n    pass\n\n\nclass Bar(Foo):\n    class Spam(Foo):\n        class Eggs(Spam):\n            pass\n";
    let end = past(src, "pass", 1);
    let eggs = class("Eggs", vec![load(src, "Spam", 1)], vec![Stmt::Pass], at(src, "class Eggs", 0), end);
    let spam = class("Spam", vec![load(src, "Foo", 2)], vec![eggs], at(src, "class Spam", 0), end);
    let module = vec![
        class("Foo", vec![], vec![Stmt::Pass], 0, past(src, "pass", 0)),
        class("Bar", vec![load(src, "Foo", 1)], vec![spam], at(src, "class Bar", 0), end),
    ];
    let args = args_with(|a| {
        a.no_color = true;
        a.ignore_definitions_if_inherits_from = vec!["Foo".to_string()];
    });
    assert_eq!(report(&args, src, module), None);
}

fn fix_args() -> Args {
    args_with(|a| {
        a.no_color = true;
        a.fix = true;
    })
}

#[test]
fn specific_code_noqa_suppresses_matching_class() {
    let src = "class MyTest:  # noqa: DC03\n    pass\n";
    let module = vec![class("MyTest", vec![], vec![Stmt::Pass], 0, past(src, "pass", 0))];
    assert_eq!(report(&fix_args(), src, module), None);
}

#[test]
fn bare_noqa_suppresses_everything() {
    let src = "instance = \"labas\"  # noqa\n";
    let module = vec![assign(
        store(src, "instance", 0),
        Expr::StringLiteral { value: "labas".to_string() },
    )];
    assert_eq!(report(&fix_args(), src, module), None);
}

#[test]
fn unused_variable_suppressed_by_matching_code() {
    let src = "unused_variable = \"Hello\"  # noqa: DC01\n";
    let module = vec![assign(
        store(src, "unused_variable", 0),
        Expr::StringLiteral { value: "Hello".to_string() },
    )];
    assert_eq!(report(&fix_args(), src, module), None);
}

#[test]
fn wrong_noqa_code_does_not_suppress() {
    let src = "unused_variable = 1  # noqa: DC02\n";
    let module = vec![assign(store(src, "unused_variable", 0), Expr::NumberLiteral)];
    let result = report(&fix_args(), src, module).unwrap();
    assert!(result.contains("DC01 Variable `unused_variable`"));
    assert!(result.ends_with("Removed 1 unused code item!"));
}

#[test]
fn unused_function_suppressed() {
    let src = "def unused_function():  # noqa: DC02\n    pass\n";
    let module = vec![function("unused_function", params(&[]), vec![], vec![Stmt::Pass], 0, past(src, "pass", 0))];
    assert_eq!(report(&fix_args(), src, module), None);
}

/// `def decorator(f): return f`, then `@decorator` on a function whose
/// `def` line starts at `def_line`.
fn decorated_module(src: &str, params_of_unused: &[&str]) -> Vec<Stmt> {
    let decorator = function(
        "decorator",
        params(&["f"]),
        vec![],
        vec![Stmt::Return { value: Some(Box::new(load(src, "f", 2))) }],
        0,
        past(src, "return f", 0),
    );
    let at_sign = at(src, "@decorator", 0);
    let unused = function(
        "unused_function",
        params(params_of_unused),
        vec![Decorator { expression: load(src, "decorator", 1), start: at_sign, end: past(src, "@decorator", 0) }],
        vec![Stmt::Pass],
        at_sign,
        past(src, "pass", 0),
    );
    vec![decorator, unused]
}

#[test]
fn decorated_function_noqa_resolves_to_def_line() {
    let src = "def decorator(f):\n    return f\n\n@decorator\ndef unused_function():  # noqa: DC02\n    pass\n";
    let args = args_with(|a| a.no_color = true);
    assert_eq!(report(&args, src, decorated_module(src, &[])), None);
}

#[test]
fn decorated_function_multiline_signature_noqa_still_resolves() {
    let src = "def decorator(f):\n    return f\n\n@decorator\ndef unused_function(  # noqa: DC02\n    a,\n    b,\n):\n    pass\n";
    let args = args_with(|a| a.no_color = true);
    assert_eq!(report(&args, src, decorated_module(src, &["a", "b"])), None);
}

#[test]
fn unused_method_suppressed() {
    let src = "class Foo:\n    def unused_method(self):  # noqa: DC04\n        pass\n\nFoo()\n";
    let method = function(
        "unused_method",
        params(&["self"]),
        vec![],
        vec![Stmt::Pass],
        at(src, "def unused_method", 0),
        past(src, "pass", 0),
    );
    let module = vec![
        class("Foo", vec![], vec![method], 0, past(src, "pass", 0)),
        Stmt::ExprStmt {
            value: Box::new(Expr::Call { func: Box::new(load(src, "Foo", 1)), args: vec![], keywords: vec![] }),
        },
    ];
    let args = args_with(|a| a.no_color = true);
    assert_eq!(report(&args, src, module), None);
}

#[test]
fn unused_import_suppressed() {
    let src = "from typing import Optional  # noqa: DC07\n";
    let module = vec![Stmt::ImportFrom {
        module: Some("typing".to_string()),
        names: vec![Alias {
            name: "Optional".to_string(),
            asname: None,
            start: at(src, "Optional", 0),
            end: past(src, "Optional", 0),
        }],
    }];
    let args = args_with(|a| a.no_color = true);
    assert_eq!(report(&args, src, module), None);
}

/// The attrs model of the field hook scenarios: `decorator_line` decorates
/// the class, `field_call` makes the field.
fn attrs_model(src: &str, class_decorator: Decorator, field_value: Expr, with_instance: bool) -> Vec<Stmt> {
    let get_stuff = function(
        "_get_stuff",
        params(&["self"]),
        vec![decorator(
            src,
            attribute(src, load(src, "some_property", 1), "default", 0),
            "@some_property.default",
            0,
        )],
        vec![Stmt::Return { value: Some(Box::new(Expr::List { elts: vec![] })) }],
        at(src, "@some_property.default", 0),
        past(src, "return []", 0),
    );
    let validate = function(
        "_validate_stuff",
        params(&["self", "attribute", "value"]),
        vec![decorator(
            src,
            attribute(src, load(src, "some_property", 2), "validator", 0),
            "@some_property.validator",
            0,
        )],
        vec![Stmt::Pass],
        at(src, "@some_property.validator", 0),
        past(src, "pass", 0),
    );
    let class_start = class_decorator.start;
    let mut module = vec![decorated_class(
        "Foo",
        vec![class_decorator],
        vec![assign(store(src, "some_property", 0), field_value), get_stuff, validate],
        class_start,
        past(src, "pass", 0),
    )];
    if with_instance {
        module.push(expr_stmt(call0(load(src, "Foo", 1))));
    }
    module
}

#[test]
fn default_and_validator_hooks_are_never_flagged() {
    let src = "import attrs\n\n@attrs.define\nclass Foo:\n    some_property = attrs.field()\n\n    @some_property.default\n    def _get_stuff(self):\n        return []\n\n    @some_property.validator\n    def _validate_stuff(self, attribute, value):\n        pass\n\nFoo()\n";
    let import = Stmt::Import {
        names: vec![Alias { name: "attrs".to_string(), asname: None, start: at(src, "attrs", 0), end: past(src, "attrs", 0) }],
    };
    let class_decorator = decorator(src, attribute(src, load(src, "attrs", 1), "define", 0), "@attrs.define", 0);
    let field = call0(attribute(src, load(src, "attrs", 2), "field", 0));
    let mut module = vec![import];
    module.extend(attrs_model(src, class_decorator, field, true));
    let args = cli(|a| a.no_color = true);
    assert_eq!(report(&args, src, module), None);
}

#[test]
fn aliased_define_and_field_imports_still_work() {
    let src = "from attrs import foo, define as blah, field as fizz, bar\n\n@blah\nclass Foo:\n    some_property = fizz(list)\n\n    @some_property.default\n    def _get_stuff(self):\n        return []\n\n    @some_property.validator\n    def _validate_stuff(self, attribute, value):\n        pass\n";
    let alias = |name: &str, asname: Option<&str>, text: &str| Alias {
        name: name.to_string(),
        asname: asname.map(|a| a.to_string()),
        start: at(src, text, 0),
        end: past(src, text, 0),
    };
    let import = Stmt::ImportFrom {
        module: Some("attrs".to_string()),
        names: vec![
            alias("foo", None, "foo"),
            alias("define", Some("blah"), "define as blah"),
            alias("field", Some("fizz"), "field as fizz"),
            alias("bar", None, "bar"),
        ],
    };
    let class_decorator = decorator(src, load(src, "blah", 1), "@blah", 0);
    let field = Expr::Call {
        func: Box::new(load(src, "fizz", 1)),
        args: vec![load(src, "list", 0)],
        keywords: vec![],
    };
    let mut module = vec![import];
    module.extend(attrs_model(src, class_decorator, field, false));
    let args = cli(|a| a.no_color = true);
    let result = report(&args, src, module).unwrap();
    assert!(result.contains("foo"));
    assert!(result.contains("bar"));
    assert!(!result.contains("_get_stuff"));
    assert!(!result.contains("_validate_stuff"));
}

#[test]
fn legacy_attr_ib_style_still_works() {
    let src = "import attr\n\n@attr.s\nclass Foo:\n    some_property = attr.ib()\n\n    @some_property.default\n    def _get_stuff(self):\n        return []\n\n    @some_property.validator\n    def _validate_stuff(self, attribute, value):\n        pass\n\nFoo()\n";
    let import = Stmt::Import {
        names: vec![Alias { name: "attr".to_string(), asname: None, start: at(src, "attr", 0), end: past(src, "attr", 0) }],
    };
    let class_decorator = decorator(src, attribute(src, load(src, "attr", 1), "s", 2), "@attr.s", 0);
    let field = call0(attribute(src, load(src, "attr", 2), "ib", 0));
    let mut module = vec![import];
    module.extend(attrs_model(src, class_decorator, field, true));
    let args = cli(|a| a.no_color = true);
    assert_eq!(report(&args, src, module), None);
}

#[test]
fn unrelated_method_named_like_a_hook_is_still_reported() {
    let src = "class Foo:\n    def unused_method(self):\n        return 1\n";
    let method = function(
        "unused_method",
        params(&["self"]),
        vec![],
        vec![Stmt::Return { value: Some(Box::new(Expr::NumberLiteral)) }],
        at(src, "def unused_method", 0),
        past(src, "return 1", 0),
    );
    let module = vec![class("Foo", vec![], vec![method], 0, past(src, "return 1", 0))];
    let args = cli(|a| a.no_color = true);
    let result = report(&args, src, module).unwrap();
    assert!(result.contains("unused_method"));
    assert!(result.contains("DC04"));
}

/// Classes with `pass` bodies, one after the other.
fn pass_classes(src: &str, names: &[&str]) -> Vec<Stmt> {
    names
        .iter()
        .enumerate()
        .map(|(i, n)| {
            let start = at(src, &format!("class {}:", n), 0);
            class(n, vec![], vec![Stmt::Pass], start, past(src, "pass", i))
        })
        .collect()
}

#[test]
fn ignore_names_glob_and_group_patterns() {
    let src = "class MyModel:\n    pass\n\n\nclass MyUserModel:\n    pass\n\n\nclass Unused:\n    pass\n\n\nclass ThisClassShouldBeIgnored:\n    pass\n";
    let module = pass_classes(src, &["MyModel", "MyUserModel", "Unused", "ThisClassShouldBeIgnored"]);
    let args = cli(|a| {
        a.no_color = true;
        a.ignore_names = vec!["*Model,*[Ii]gnore*".to_string()];
    });
    let result = report(&args, src, module).unwrap();
    assert!(result.contains("Unused"));
    assert!(!result.contains("MyModel"));
    assert!(!result.contains("MyUserModel"));
    assert!(!result.contains("ThisClassShouldBeIgnored"));
}

#[test]
fn ignore_names_exact_comma_separated() {
    let src = "class MyModel:\n    pass\n\n\nclass Unused:\n    pass\n";
    let module = pass_classes(src, &["MyModel", "Unused"]);
    let args = cli(|a| {
        a.no_color = true;
        a.ignore_names = vec!["MyModel".to_string()];
    });
    let result = report(&args, src, module).unwrap();
    assert!(result.contains("Unused"));
    assert!(!result.contains("MyModel"));
}

fn thing_module(src: &str) -> Vec<Stmt> {
    vec![
        class(
            "Foo",
            vec![load(src, "Bar", 0)],
            vec![assign(store(src, "THING", 0), Expr::StringLiteral { value: "blah".to_string() })],
            0,
            past(src, "\"blah\"", 0),
        ),
        expr_stmt(call0(load(src, "Foo", 1))),
    ]
}

#[test]
fn class_attribute_reported_by_default_ignored_with_flag() {
    let src = "class Foo(Bar):\n    THING = \"blah\"\n\nFoo()\n";
    let result = report(&cli(|a| a.no_color = true), src, thing_module(src)).unwrap();
    assert!(result.contains("DC01 Variable `THING`"));
    let args = cli(|a| {
        a.no_color = true;
        a.ignore_class_attributes = true;
    });
    assert_eq!(report(&args, src, thing_module(src)), None);
}

#[test]
fn nested_class_attribute_ignored_with_flag() {
    let src = "class Foo:\n    class Meta:\n        ordering = [\"id\"]\n\nFoo.Meta\n";
    let end = past(src, "[\"id\"]", 0);
    let meta = class(
        "Meta",
        vec![],
        vec![assign(
            store(src, "ordering", 0),
            Expr::List { elts: vec![Expr::StringLiteral { value: "id".to_string() }] },
        )],
        at(src, "class Meta", 0),
        end,
    );
    let module = vec![
        class("Foo", vec![], vec![meta], 0, end),
        expr_stmt(attribute(src, load(src, "Foo", 1), "Meta", 1)),
    ];
    let args = cli(|a| {
        a.no_color = true;
        a.ignore_class_attributes = true;
    });
    assert_eq!(report(&args, src, module), None);
}

#[test]
fn local_variable_still_reported_with_ignore_class_attributes_flag() {
    let src = "class Foo:\n    THING = \"blah\"\n\n    def method(self):\n        local_unused = 1\n";
    let end = past(src, "local_unused = 1", 0);
    let method = function(
        "method",
        params(&["self"]),
        vec![],
        vec![assign(store(src, "local_unused", 0), Expr::NumberLiteral)],
        at(src, "def method", 0),
        end,
    );
    let module = vec![class(
        "Foo",
        vec![],
        vec![assign(store(src, "THING", 0), Expr::StringLiteral { value: "blah".to_string() }), method],
        0,
        end,
    )];
    let args = cli(|a| {
        a.no_color = true;
        a.ignore_class_attributes = true;
    });
    let result = report(&args, src, module).unwrap();
    assert!(result.contains("DC04 Method `method`"));
    assert!(result.contains("DC01 Variable `local_unused`"));
    assert!(!result.contains("THING"));
}

fn some_object_module(src: &str) -> Vec<Stmt> {
    let bar_start = at(src, "foo.bar", 0);
    vec![
        class("SomeObject", vec![], vec![Stmt::Pass], 0, past(src, "pass", 0)),
        assign(store(src, "foo", 0), call0(load(src, "SomeObject", 1))),
        assign(
            Expr::Attribute {
                value: Box::new(load(src, "foo", 1)),
                attr: "bar".to_string(),
                ctx: ExprContext::Store,
                start: bar_start,
                end: bar_start + 7,
            },
            Expr::StringLiteral { value: "thing".to_string() },
        ),
    ]
}

#[test]
fn non_self_attribute_reported_by_default_ignored_with_flag() {
    let src = "class SomeObject:\n    pass\n\nfoo = SomeObject()\nfoo.bar = \"thing\"\n";
    let result = report(&cli(|a| a.no_color = true), src, some_object_module(src)).unwrap();
    assert!(result.contains("DC05 Attribute `bar`"));
    let args = cli(|a| {
        a.no_color = true;
        a.ignore_non_self_attributes = true;
    });
    assert_eq!(report(&args, src, some_object_module(src)), None);
}

#[test]
fn self_attribute_still_reported_with_ignore_non_self_attributes_flag() {
    let src = "class Foo:\n    def __init__(self):\n        self.baz = 1\n\nFoo()\n";
    let target_start = at(src, "self.baz", 0);
    let init = function(
        "__init__",
        params(&["self"]),
        vec![],
        vec![assign(
            Expr::Attribute {
                value: Box::new(load(src, "self", 1)),
                attr: "baz".to_string(),
                ctx: ExprContext::Store,
                start: target_start,
                end: target_start + 8,
            },
            Expr::NumberLiteral,
        )],
        at(src, "def __init__", 0),
        past(src, "self.baz = 1", 0),
    );
    let module = vec![
        class("Foo", vec![], vec![init], 0, past(src, "self.baz = 1", 0)),
        expr_stmt(call0(load(src, "Foo", 1))),
    ];
    let args = cli(|a| {
        a.no_color = true;
        a.ignore_non_self_attributes = true;
    });
    let result = report(&args, src, module).unwrap();
    assert!(result.contains("DC05 Attribute `baz`"));
}

#[test]
fn ignore_definitions_exact_name_hides_whole_subtree() {
    let src = "class UnusedClass:\n    def unused_method(self):\n        pass\n";
    let method = function(
        "unused_method",
        params(&["self"]),
        vec![],
        vec![Stmt::Pass],
        at(src, "def unused_method", 0),
        past(src, "pass", 0),
    );
    let module = vec![class("UnusedClass", vec![], vec![method], 0, past(src, "pass", 0))];
    let args = cli(|a| {
        a.no_color = true;
        a.ignore_definitions = vec!["UnusedClass".to_string()];
    });
    assert_eq!(report(&args, src, module), None);
}

#[test]
fn ignore_definitions_sibling_class_still_detected() {
    let src = "class UnusedClass:\n    pass\n\n\nclass AnotherUnusedClass:\n    pass\n";
    let module = pass_classes(src, &["UnusedClass", "AnotherUnusedClass"]);
    let args = cli(|a| {
        a.no_color = true;
        a.ignore_definitions = vec!["UnusedClass".to_string()];
    });
    let result = report(&args, src, module).unwrap();
    assert!(result.contains("AnotherUnusedClass"));
    assert!(!result.contains("`UnusedClass`"));
}

#[test]
fn ignore_flags_cli_ignore_definitions_glob_pattern() {
    let src = "class UnusedClass:\n    pass\n";
    let module = pass_classes(src, &["UnusedClass"]);
    let args = cli(|a| {
        a.no_color = true;
        a.ignore_definitions = vec!["Unused*".to_string()];
    });
    assert_eq!(report(&args, src, module), None);
}

/// `foo.py` with an unused class and `bar.py` with an unused function.
fn two_files(args: &Args) -> Option<String> {
    let foo = "class Foo:\n    pass\n";
    let bar = "def unused_function():\n    pass\n";
    let items = unused_in(
        args,
        vec![
            ("/work/foo.py", foo, vec![class("Foo", vec![], vec![Stmt::Pass], 0, past(foo, "pass", 0))]),
            (
                "/work/bar.py",
                bar,
                vec![function("unused_function", params(&[]), vec![], vec![Stmt::Pass], 0, past(bar, "pass", 0))],
            ),
        ],
    );
    get_unused_names_error_message(&items, args)
}

#[test]
fn only_restricts_reporting_to_named_file() {
    let args = cli(|a| {
        a.no_color = true;
        a.only = vec!["/work/foo.py".to_string()];
    });
    let result = two_files(&args).unwrap();
    assert!(result.contains("Foo"));
    assert!(!result.contains("unused_function"));
}

#[test]
fn only_glob_pattern_matches_filename() {
    let args = cli(|a| {
        a.no_color = true;
        a.only = vec!["/work/*.py".to_string()];
    });
    let result = two_files(&args).unwrap();
    assert!(result.contains("Foo") || result.contains("unused_function"));
}

#[test]
fn relative_module_import_usage_is_tracked() {
    let foo = "used_var = None\n";
    let bar = "from .. import foo as f\nprint(f.used_var)\n";
    let bar_module = vec![
        Stmt::ImportFrom {
            module: None,
            names: vec![Alias {
                name: "foo".to_string(),
                asname: Some("f".to_string()),
                start: at(bar, "foo as f", 0),
                end: past(bar, "foo as f", 0),
            }],
        },
        expr_stmt(Expr::Call {
            func: Box::new(load(bar, "print", 0)),
            args: vec![attribute(bar, load(bar, "f", 2), "used_var", 0)],
            keywords: vec![],
        }),
    ];
    let args = cli(|a| a.no_color = true);
    let items = unused_in(
        &args,
        vec![
            ("/work/eggs/foo.py", foo, vec![assign(store(foo, "used_var", 0), Expr::NoneLiteral)]),
            ("/work/eggs/spam/bar.py", bar, bar_module),
        ],
    );
    assert_eq!(get_unused_names_error_message(&items, &args), None);
}

#[test]
fn recovers_after_a_syntax_error_in_a_previous_run() {
    let args = cli(|a| a.no_color = true);
    let tach = TachIndex::new(vec![]);
    // The unparseable run fails with nothing on stdout...
    let broken = "unused_var = None this is syntax error";
    let mut visitor = DeadCodeVisitor::new(&args, &tach, "/work");
    if visitor.prepare_file(FILE, broken.as_bytes()).is_some() {
        visitor.visit_module(None);
    }
    let items = visitor.get_unused_code_items();
    let message = get_unused_names_error_message(&items, &args);
    let failed = !visitor.parse_failures.is_empty();
    assert_eq!(deadcode::cli::run_output(message, "", failed), Some(String::new()));
    // ...and once the syntax is valid, analysis resumes normally.
    let src = "unused_var = None\n";
    let result = report(&args, src, vec![assign(store(src, "unused_var", 0), Expr::NoneLiteral)]).unwrap();
    assert!(result.contains("DC01 Variable `unused_var`"));
}

#[test]
fn variable_names_in_comments_are_not_usage() {
    let src = "# unused_var mentioned in a comment\nunused_var = 1\n";
    let module = vec![assign(store(src, "unused_var", 1), Expr::NumberLiteral)];
    let result = report(&cli(|a| a.no_color = true), src, module).unwrap();
    assert!(result.contains(":2:0: DC01 Variable `unused_var`"));
}

#[test]
fn variable_names_in_strings_are_not_usage() {
    let src = "\"\"\"unused_var docstring mention\"\"\"\nx = 1\nprint(\"unused_var string mention\")\nunused_var = 1\n";
    let module = vec![
        expr_stmt(Expr::StringLiteral { value: "unused_var docstring mention".to_string() }),
        assign(store(src, "x", 0), Expr::NumberLiteral),
        expr_stmt(Expr::Call {
            func: Box::new(load(src, "print", 0)),
            args: vec![Expr::StringLiteral { value: "unused_var string mention".to_string() }],
            keywords: vec![],
        }),
        assign(store(src, "unused_var", 2), Expr::NumberLiteral),
    ];
    let result = report(&cli(|a| a.no_color = true), src, module).unwrap();
    assert!(result.contains(":4:0: DC01 Variable `unused_var`"));
}

/// The class scenario of the output options.
fn foo_and_bar(src: &str, with_bar: bool) -> Vec<Stmt> {
    let eggs = function(
        "eggs",
        params(&["self"]),
        vec![],
        vec![Stmt::Return { value: Some(Box::new(Expr::NoneLiteral)) }],
        at(src, "def eggs", 0),
        past(src, "return None", 0),
    );
    let mut module = vec![class(
        "Foo",
        vec![],
        vec![
            assign(store(src, "bar", 0), Expr::NoneLiteral),
            assign(store(src, "spam", 0), Expr::NoneLiteral),
            eggs,
        ],
        0,
        past(src, "return None", 0),
    )];
    if with_bar {
        module.push(class("Bar", vec![load(src, "Foo", 1)], vec![Stmt::Pass], at(src, "class Bar", 0), past(src, "pass", 0)));
    }
    module
}

#[test]
fn count_option_counts_all_unused_definitions() {
    let src = "class Foo:\n    bar = None\n    spam = None\n\n    def eggs(self):\n        return None\n\n\nclass Bar(Foo):\n    pass\n";
    assert_eq!(report(&cli(|a| a.count = true), src, foo_and_bar(src, true)), Some("4".to_string()));
}

#[test]
fn quiet_option_suppresses_all_text_output() {
    let src = "class Foo:\n    bar = None\n    spam = None\n\n    def eggs(self):\n        return None\n";
    assert_eq!(report(&cli(|a| a.quiet = true), src, foo_and_bar(src, false)), Some(String::new()));
}

fn unused_var_report(args: &Args) -> String {
    let src = "unused_var = 1\n";
    report(args, src, vec![assign(store(src, "unused_var", 0), Expr::NumberLiteral)]).unwrap()
}

#[test]
fn colorful_output_by_default() {
    let result = unused_var_report(&cli(|_| {}));
    assert!(result.contains("\x1b[91mDC01\x1b[0m"));
    assert!(result.contains("`\x1b[1munused_var\x1b[0m`"));
}

fn strip_ansi(s: &str) -> String {
    s.replace("\x1b[91m", "")
        .replace("\x1b[1m", "")
        .replace("\x1b[0m", "")
        .replace("\x1b[31m", "")
        .replace("\x1b[32m", "")
}

#[test]
fn no_color_option_strips_ansi() {
    let colorful = unused_var_report(&cli(|_| {}));
    let plain = unused_var_report(&cli(|a| a.no_color = true));
    assert_eq!(strip_ansi(&colorful), plain);
    assert!(!plain.contains('\x1b'));
}

fn import(src: &str, module: &str) -> Stmt {
    Stmt::Import {
        names: vec![Alias { name: module.to_string(), asname: None, start: at(src, module, 0), end: past(src, module, 0) }],
    }
}

fn import_from(src: &str, module: &str, name: &str) -> Stmt {
    Stmt::ImportFrom {
        module: Some(module.to_string()),
        names: vec![Alias { name: name.to_string(), asname: None, start: at(src, name, 0), end: past(src, name, 0) }],
    }
}

/// `def db(): return {}` under the decorator written `text`.
fn fixture_def(src: &str, expression: Expr, text: &str) -> Stmt {
    function(
        "db",
        params(&[]),
        vec![decorator(src, expression, text, 0)],
        vec![Stmt::Return { value: Some(Box::new(Expr::Dict { items: vec![] })) }],
        at(src, text, 0),
        past(src, "return {}", 0),
    )
}

/// `import pytest` and a `@pytest.fixture` function `db`.
fn pytest_fixture_module(src: &str) -> Vec<Stmt> {
    vec![
        import(src, "pytest"),
        fixture_def(src, attribute(src, load(src, "pytest", 1), "fixture", 0), "@pytest.fixture"),
    ]
}

fn one_file_report(path: &str, src: &str, module: Vec<Stmt>) -> Option<String> {
    let args = cli(|a| a.no_color = true);
    let items = unused_in(&args, vec![(path, src, module)]);
    get_unused_names_error_message(&items, &args)
}

const FIXTURE_SRC: &str = "import pytest\n\n@pytest.fixture\ndef db():\n    return {}\n";

#[test]
fn autouse_call_form_fixture_in_conftest_is_never_flagged() {
    let src = "import pytest\n\n@pytest.fixture(autouse=True)\ndef db():\n    return {}\n";
    let expression = Expr::Call {
        func: Box::new(attribute(src, load(src, "pytest", 1), "fixture", 0)),
        args: vec![],
        keywords: vec![deadcode::visitor::python_ast::Keyword {
            arg: Some("autouse".to_string()),
            value: Expr::BooleanLiteral,
        }],
    };
    let module = vec![import(src, "pytest"), fixture_def(src, expression, "@pytest.fixture(autouse=True)")];
    assert_eq!(one_file_report("/work/conftest.py", src, module), None);
}

#[test]
fn fixture_in_nested_conftest_is_never_flagged() {
    let module = pytest_fixture_module(FIXTURE_SRC);
    assert_eq!(one_file_report("/work/tests/integration/conftest.py", FIXTURE_SRC, module), None);
}

#[test]
fn fixture_in_test_file_is_never_flagged() {
    let module = pytest_fixture_module(FIXTURE_SRC);
    assert_eq!(one_file_report("/work/tests/test_foo.py", FIXTURE_SRC, module), None);
}

#[test]
fn fixture_method_on_test_class_is_never_flagged() {
    let src = "import pytest\n\nclass TestSomething:\n    @pytest.fixture\n    def db(self):\n        return {}\n";
    let db = function(
        "db",
        params(&["self"]),
        vec![decorator(src, attribute(src, load(src, "pytest", 1), "fixture", 0), "@pytest.fixture", 0)],
        vec![Stmt::Return { value: Some(Box::new(Expr::Dict { items: vec![] })) }],
        at(src, "@pytest.fixture", 0),
        past(src, "return {}", 0),
    );
    let module = vec![
        import(src, "pytest"),
        class("TestSomething", vec![], vec![db], at(src, "class TestSomething", 0), past(src, "return {}", 0)),
    ];
    assert_eq!(one_file_report("/work/tests/test_foo.py", src, module), None);
}

#[test]
fn bare_fixture_import_is_recognized() {
    let src = "from pytest import fixture\n\n@fixture\ndef db():\n    return {}\n";
    let module = vec![import_from(src, "pytest", "fixture"), fixture_def(src, load(src, "fixture", 1), "@fixture")];
    assert_eq!(one_file_report("/work/conftest.py", src, module), None);
}

#[test]
fn pytest_asyncio_fixture_is_recognized() {
    let src = "import pytest_asyncio\n\n@pytest_asyncio.fixture\nasync def db():\n    return {}\n";
    let module = vec![
        import(src, "pytest_asyncio"),
        fixture_def(src, attribute(src, load(src, "pytest_asyncio", 1), "fixture", 0), "@pytest_asyncio.fixture"),
    ];
    assert_eq!(one_file_report("/work/conftest.py", src, module), None);
}

#[test]
fn fixture_outside_pytest_location_is_still_flagged() {
    let module = pytest_fixture_module(FIXTURE_SRC);
    let result = one_file_report("/work/myapp/helpers.py", FIXTURE_SRC, module).unwrap();
    assert!(result.contains("DC02"));
    assert!(result.contains("`db`"));
}

#[test]
fn usefixtures_mark_on_class_counts_as_usage() {
    let test_src = "import pytest\n\n@pytest.mark.usefixtures(\"db\")\nclass TestSomething:\n    def test_it(self):\n        pass\n";
    let mark = Expr::Call {
        func: Box::new(attribute(
            test_src,
            attribute(test_src, load(test_src, "pytest", 1), "mark", 0),
            "usefixtures",
            0,
        )),
        args: vec![Expr::StringLiteral { value: "db".to_string() }],
        keywords: vec![],
    };
    let test_it = function(
        "test_it",
        params(&["self"]),
        vec![],
        vec![Stmt::Pass],
        at(test_src, "def test_it", 0),
        past(test_src, "pass", 0),
    );
    let test_module = vec![
        import(test_src, "pytest"),
        decorated_class(
            "TestSomething",
            vec![decorator(test_src, mark, "@pytest.mark.usefixtures(\"db\")", 0)],
            vec![test_it],
            at(test_src, "@pytest", 0),
            past(test_src, "pass", 0),
        ),
    ];
    let args = cli(|a| a.no_color = true);
    let items = unused_in(
        &args,
        vec![
            ("/work/myapp/helpers.py", FIXTURE_SRC, pytest_fixture_module(FIXTURE_SRC)),
            ("/work/tests/test_foo.py", test_src, test_module),
        ],
    );
    assert_eq!(get_unused_names_error_message(&items, &args), None);
}

#[test]
fn getfixturevalue_counts_as_usage() {
    let test_src = "def test_it(request):\n    request.getfixturevalue(\"db\")\n";
    let call = Expr::Call {
        func: Box::new(attribute(test_src, load(test_src, "request", 1), "getfixturevalue", 0)),
        args: vec![Expr::StringLiteral { value: "db".to_string() }],
        keywords: vec![],
    };
    let test_module = vec![function(
        "test_it",
        params(&["request"]),
        vec![],
        vec![expr_stmt(call)],
        0,
        past(test_src, "(\"db\")", 0),
    )];
    let args = cli(|a| a.no_color = true);
    let items = unused_in(
        &args,
        vec![
            ("/work/myapp/helpers.py", FIXTURE_SRC, pytest_fixture_module(FIXTURE_SRC)),
            ("/work/tests/test_foo.py", test_src, test_module),
        ],
    );
    assert_eq!(get_unused_names_error_message(&items, &args), None);
}

/// `def NAME(PARAM): pass`.
fn hook_module(src: &str, fname: &str, param: &str) -> Vec<Stmt> {
    vec![function(fname, params(&[param]), vec![], vec![Stmt::Pass], 0, past(src, "pass", 0))]
}

#[test]
fn pytest_configure_hook_in_conftest_is_never_flagged() {
    let src = "def pytest_configure(config):\n    pass\n";
    assert_eq!(one_file_report("/work/conftest.py", src, hook_module(src, "pytest_configure", "config")), None);
}

#[test]
fn pytest_collection_modifyitems_hook_in_conftest_is_never_flagged() {
    let src = "def pytest_collection_modifyitems(config):\n    pass\n";
    let module = hook_module(src, "pytest_collection_modifyitems", "config");
    assert_eq!(one_file_report("/work/conftest.py", src, module), None);
}

#[test]
fn pytest_hook_in_nested_conftest_is_never_flagged() {
    let src = "def pytest_addoption(parser):\n    pass\n";
    let module = hook_module(src, "pytest_addoption", "parser");
    assert_eq!(one_file_report("/work/tests/integration/conftest.py", src, module), None);
}

#[test]
fn pytest_prefixed_function_outside_conftest_is_still_flagged() {
    let src = "def pytest_configure(config):\n    pass\n";
    let result = one_file_report("/work/myapp/helpers.py", src, hook_module(src, "pytest_configure", "config")).unwrap();
    assert!(result.contains("DC02"));
    assert!(result.contains("pytest_configure"));
}

/// An optional import, then `class Foo(Base)` whose `method` carries the
/// decorator written `text` (if any), then `Foo()`.
fn override_module(src: &str, head: Option<Stmt>, deco: Option<(Expr, &str)>) -> Vec<Stmt> {
    let (decorators, start) = match deco {
        Some((expression, text)) => (vec![decorator(src, expression, text, 0)], at(src, text, 0)),
        None => (vec![], at(src, "def method", 0)),
    };
    let method = function("method", params(&["self"]), decorators, vec![Stmt::Pass], start, past(src, "pass", 0));
    let mut module: Vec<Stmt> = head.into_iter().collect();
    module.push(class("Foo", vec![load(src, "Base", 0)], vec![method], at(src, "class Foo", 0), past(src, "pass", 0)));
    module.push(expr_stmt(call0(load(src, "Foo", 1))));
    module
}

#[test]
fn method_decorated_with_typing_override_is_never_flagged() {
    let src = "import typing\n\nclass Foo(Base):\n    @typing.override\n    def method(self):\n        pass\n\nFoo()\n";
    let deco = attribute(src, load(src, "typing", 1), "override", 0);
    let module = override_module(src, Some(import(src, "typing")), Some((deco, "@typing.override")));
    assert_eq!(one_file_report("/work/myapp/foo.py", src, module), None);
}

#[test]
fn bare_override_import_is_recognized() {
    let src = "from typing import override\n\nclass Foo(Base):\n    @override\n    def method(self):\n        pass\n\nFoo()\n";
    let module = override_module(
        src,
        Some(import_from(src, "typing", "override")),
        Some((load(src, "override", 1), "@override")),
    );
    assert_eq!(one_file_report("/work/myapp/foo.py", src, module), None);
}

#[test]
fn typing_extensions_override_is_recognized() {
    let src = "import typing_extensions\n\nclass Foo(Base):\n    @typing_extensions.override\n    def method(self):\n        pass\n\nFoo()\n";
    let deco = attribute(src, load(src, "typing_extensions", 1), "override", 0);
    let module = override_module(src, Some(import(src, "typing_extensions")), Some((deco, "@typing_extensions.override")));
    assert_eq!(one_file_report("/work/myapp/foo.py", src, module), None);
}

#[test]
fn method_without_override_decorator_is_still_flagged() {
    let src = "class Foo(Base):\n    def method(self):\n        pass\n\nFoo()\n";
    let result = one_file_report("/work/myapp/foo.py", src, override_module(src, None, None)).unwrap();
    assert!(result.contains("DC04 Method `method`"));
}

/// A `--fix` run over in-memory files: the report, and what happens to each
/// file that has unused code.
fn fix_run(args: &Args, files: Vec<(&str, &str, Vec<Stmt>)>) -> (Option<String>, Vec<(String, FileFix)>) {
    let contents: Vec<(String, String)> = files.iter().map(|(p, s, _)| (p.to_string(), s.to_string())).collect();
    let items = unused_in(args, files);
    let message = get_unused_names_error_message(&items, args);
    let mut plans = Vec::new();
    for (filename, parts) in group_parts_by_file(&items) {
        let content = &contents.iter().find(|(p, _)| *p == filename).unwrap().1;
        plans.push((filename.clone(), plan_file_fix(&filename, &parts, content.as_bytes(), args)));
    }
    (message, plans)
}

/// The text of a file after the fix (`None` when it is removed).
fn fixed_text(plans: &[(String, FileFix)], path: &str, original: &str) -> Option<String> {
    match plans.iter().find(|(p, _)| p == path) {
        None => Some(original.to_string()),
        Some((_, FileFix::Remove)) => None,
        Some((_, FileFix::Write(bytes))) => Some(String::from_utf8(bytes.clone()).unwrap()),
        Some((_, FileFix::Show(_))) | Some((_, FileFix::Keep)) => Some(original.to_string()),
    }
}

fn fix_no_color() -> Args {
    cli(|a| {
        a.no_color = true;
        a.fix = true;
    })
}

#[test]
fn whitespace_only_file_is_removed_as_dc11() {
    let src = "   \n\n  \n";
    let (message, plans) = fix_run(&fix_no_color(), vec![("/work/foo.py", src, vec![])]);
    let result = message.unwrap();
    assert!(result.contains("DC11 Empty file"));
    assert!(result.ends_with("Removed 1 unused code item!"));
    assert_eq!(fixed_text(&plans, "/work/foo.py", src), None);
}

#[test]
fn whitespace_only_file_in_subdir_is_removed() {
    let src = "   \n";
    let (message, plans) = fix_run(&fix_no_color(), vec![("/work/bar/foo.py", src, vec![])]);
    assert!(message.unwrap().contains("DC11 Empty file"));
    assert_eq!(fixed_text(&plans, "/work/bar/foo.py", src), None);
}

fn print_literal(text: &str, src: &str, n: usize) -> Stmt {
    expr_stmt(Expr::Call {
        func: Box::new(load(src, "print", n)),
        args: vec![Expr::StringLiteral { value: text.to_string() }],
        keywords: vec![],
    })
}

fn unchanged_by_fix(src: &str, module: Vec<Stmt>) {
    let (message, plans) = fix_run(&fix_no_color(), vec![("/work/foo.py", src, module)]);
    assert_eq!(message, None);
    assert_eq!(fixed_text(&plans, "/work/foo.py", src), Some(src.to_string()));
}

#[test]
fn if_true_else_unchanged() {
    let src = "if True:\n    print(\"a\")\nelse:\n    print(\"b\")\n";
    let module = vec![Stmt::If {
        test: Box::new(Expr::BooleanLiteral),
        body: vec![print_literal("a", src, 0)],
        elif_else_clauses: vec![deadcode::visitor::python_ast::ElifElseClause {
            test: None,
            body: vec![print_literal("b", src, 1)],
        }],
    }];
    unchanged_by_fix(src, module);
}

#[test]
fn if_false_else_unchanged() {
    let src = "if False:\n    print(\"a\")\nelse:\n    print(\"b\")\n";
    let module = vec![Stmt::If {
        test: Box::new(Expr::BooleanLiteral),
        body: vec![print_literal("a", src, 0)],
        elif_else_clauses: vec![deadcode::visitor::python_ast::ElifElseClause {
            test: None,
            body: vec![print_literal("b", src, 1)],
        }],
    }];
    unchanged_by_fix(src, module);
}

#[test]
fn while_true_else_unchanged() {
    let src = "while True:\n    print(\"a\")\n    break\nelse:\n    print(\"b\")\n";
    let module = vec![Stmt::While {
        test: Box::new(Expr::BooleanLiteral),
        body: vec![print_literal("a", src, 0), Stmt::Break],
        orelse: vec![print_literal("b", src, 1)],
    }];
    unchanged_by_fix(src, module);
}

#[test]
fn while_false_else_unchanged() {
    let src = "while False:\n    print(\"a\")\nelse:\n    print(\"b\")\n";
    let module = vec![Stmt::While {
        test: Box::new(Expr::BooleanLiteral),
        body: vec![print_literal("a", src, 0)],
        orelse: vec![print_literal("b", src, 1)],
    }];
    unchanged_by_fix(src, module);
}

/// `def NAME(): pass` for each name, two blank lines apart.
fn pass_functions(src: &str, names: &[&str]) -> Vec<Stmt> {
    names
        .iter()
        .enumerate()
        .map(|(i, n)| {
            function(n, params(&[]), vec![], vec![Stmt::Pass], at(src, &format!("def {}(", n), 0), past(src, "pass", i))
        })
        .collect()
}

fn alias_at(src: &str, text: &str, name: &str, asname: Option<&str>, n: usize) -> Alias {
    Alias {
        name: name.to_string(),
        asname: asname.map(|a| a.to_string()),
        start: at(src, text, n),
        end: past(src, text, n),
    }
}

#[test]
fn emptied_import_statement_is_removed_entirely() {
    let file1 = "def foo():\n    pass\n\n\ndef bar():\n    pass\n\n\ndef xyz():\n    pass\n\n\ndef used():\n    pass\n";
    let file2 = "from file1 import (\n    foo,\n    bar,\n    xyz,\n)\nfrom file1 import used\n\nused()\n";
    let module2 = vec![
        Stmt::ImportFrom {
            module: Some("file1".to_string()),
            names: vec![
                alias_at(file2, "foo", "foo", None, 0),
                alias_at(file2, "bar", "bar", None, 0),
                alias_at(file2, "xyz", "xyz", None, 0),
            ],
        },
        Stmt::ImportFrom { module: Some("file1".to_string()), names: vec![alias_at(file2, "used", "used", None, 0)] },
        expr_stmt(call0(load(file2, "used", 1))),
    ];
    let args = cli(|a| {
        a.no_color = true;
        a.fix = true;
        a.verbose = true;
    });
    let (message, plans) = fix_run(
        &args,
        vec![
            ("/work/file1.py", file1, pass_functions(file1, &["foo", "bar", "xyz", "used"])),
            ("/work/file2.py", file2, module2),
        ],
    );
    let result = message.unwrap();
    assert!(result.contains("DC07 Import `foo`"));
    assert!(result.contains("DC07 Import `bar`"));
    assert!(result.contains("DC07 Import `xyz`"));
    let updated = fixed_text(&plans, "/work/file2.py", file2).unwrap();
    assert!(updated.contains("from file1 import used"));
    assert!(updated.contains("used()"));
    assert!(!updated.contains("from file1 import ("), "dangling open stub left behind:\n{updated}");
    for line in updated.lines() {
        assert_ne!(line.trim(), ")", "orphaned closing paren:\n{updated}");
        assert_ne!(line.trim(), "import", "bare `import` left behind:\n{updated}");
    }
}

fn print_one(src: &str) -> Stmt {
    expr_stmt(Expr::Call { func: Box::new(load(src, "print", 0)), args: vec![Expr::NumberLiteral], keywords: vec![] })
}

#[test]
fn emptied_single_line_imports_are_removed_entirely() {
    let cases: Vec<(&str, Stmt)> = vec![
        ("import os\nprint(1)\n", Stmt::Import { names: vec![alias_at("import os\nprint(1)\n", "os", "os", None, 0)] }),
        (
            "from foo import bar\nprint(1)\n",
            Stmt::ImportFrom {
                module: Some("foo".to_string()),
                names: vec![alias_at("from foo import bar\nprint(1)\n", "bar", "bar", None, 0)],
            },
        ),
        (
            "import os.path\nprint(1)\n",
            Stmt::Import { names: vec![alias_at("import os.path\nprint(1)\n", "os.path", "os.path", None, 0)] },
        ),
        (
            "import os as o\nprint(1)\n",
            Stmt::Import { names: vec![alias_at("import os as o\nprint(1)\n", "os as o", "os", Some("o"), 0)] },
        ),
        (
            "from . import thing\nprint(1)\n",
            Stmt::ImportFrom {
                module: None,
                names: vec![alias_at("from . import thing\nprint(1)\n", "thing", "thing", None, 0)],
            },
        ),
    ];
    for (source, import_stmt) in cases {
        let (_, plans) = fix_run(&fix_no_color(), vec![("/work/mod.py", source, vec![import_stmt, print_one(source)])]);
        let updated = fixed_text(&plans, "/work/mod.py", source).unwrap();
        assert_eq!(updated, "print(1)\n", "expected the import statement to be removed outright, from: {source:?}");
    }
}

#[test]
fn all_unused_names_on_one_line_are_removed() {
    let src = "import os, sys\nprint(1)\n";
    let module = vec![
        Stmt::Import { names: vec![alias_at(src, "os", "os", None, 0), alias_at(src, "sys", "sys", None, 0)] },
        print_one(src),
    ];
    let (_, plans) = fix_run(&fix_no_color(), vec![("/work/mod.py", src, module)]);
    assert_eq!(fixed_text(&plans, "/work/mod.py", src).unwrap(), "print(1)\n");

    let src2 = "import os, sys\nprint(sys.path)\n";
    let module2 = vec![
        Stmt::Import { names: vec![alias_at(src2, "os", "os", None, 0), alias_at(src2, "sys", "sys", None, 0)] },
        expr_stmt(Expr::Call {
            func: Box::new(load(src2, "print", 0)),
            args: vec![attribute(src2, load(src2, "sys", 1), "path", 0)],
            keywords: vec![],
        }),
    ];
    let (_, plans2) = fix_run(&fix_no_color(), vec![("/work/mod.py", src2, module2)]);
    assert_eq!(fixed_text(&plans2, "/work/mod.py", src2).unwrap(), "import sys\nprint(sys.path)\n");
}

fn keep_the_file(src: &str) -> Stmt {
    print_literal("Keep the file", src, 0)
}

#[test]
fn unused_class_is_removed_with_singular_message() {
    let src = "class UnusedClass:\n    pass\n\n\nprint(\"Keep the file\")\n";
    let module = vec![class("UnusedClass", vec![], vec![Stmt::Pass], 0, past(src, "pass", 0)), keep_the_file(src)];
    let (message, plans) = fix_run(&fix_no_color(), vec![(FILE, src, module)]);
    let result = message.unwrap();
    assert!(result.contains("DC03 Class `UnusedClass` is never used"));
    assert!(result.ends_with("Removed 1 unused code item!"));
    assert_eq!(fixed_text(&plans, FILE, src).unwrap(), "print(\"Keep the file\")\n");
}

#[test]
fn unused_function_with_default_args_is_removed() {
    let src = "def foo(bar: str = \"Bar\") -> str:\n    return bar\n\n\nprint(\"Keep the file\")\n";
    let parameters = Parameters {
        posonlyargs: vec![],
        args: vec![ParameterWithDefault {
            parameter: Parameter { name: "bar".to_string(), annotation: Some(Box::new(load(src, "str", 0))) },
            default: Some(Box::new(Expr::StringLiteral { value: "Bar".to_string() })),
        }],
        vararg: None,
        kwonlyargs: vec![],
        kwarg: None,
    };
    let foo = Stmt::FunctionDef {
        name: "foo".to_string(),
        parameters: Box::new(parameters),
        decorator_list: vec![],
        return_annotation: Some(Box::new(load(src, "str", 1))),
        body: vec![Stmt::Return { value: Some(Box::new(load(src, "bar", 1))) }],
        start: 0,
        end: past(src, "return bar", 0),
    };
    let (message, plans) = fix_run(&fix_no_color(), vec![(FILE, src, vec![foo, keep_the_file(src)])]);
    assert!(message.unwrap().contains("DC02 Function `foo` is never used"));
    assert_eq!(fixed_text(&plans, FILE, src).unwrap(), "print(\"Keep the file\")\n");
}

#[test]
fn function_removal_in_the_middle_preserves_surroundings() {
    let src = "used_before = 1\n\n\ndef unused_function():\n    pass\n\n\nprint(used_before)\n";
    let module = vec![
        assign(store(src, "used_before", 0), Expr::NumberLiteral),
        function("unused_function", params(&[]), vec![], vec![Stmt::Pass], at(src, "def", 0), past(src, "pass", 0)),
        expr_stmt(Expr::Call {
            func: Box::new(load(src, "print", 0)),
            args: vec![load(src, "used_before", 1)],
            keywords: vec![],
        }),
    ];
    let (_, plans) = fix_run(&fix_no_color(), vec![(FILE, src, module)]);
    assert_eq!(fixed_text(&plans, FILE, src).unwrap(), "used_before = 1\n\n\nprint(used_before)\n");
}

#[test]
fn multiple_items_are_listed_sorted_by_line_with_plural_message() {
    let src = "unused_var = 1\n\n\ndef unused_function():\n    pass\n";
    let module = vec![
        assign(store(src, "unused_var", 0), Expr::NumberLiteral),
        function("unused_function", params(&[]), vec![], vec![Stmt::Pass], at(src, "def", 0), past(src, "pass", 0)),
    ];
    let (message, _) = fix_run(&fix_no_color(), vec![(FILE, src, module)]);
    let result = message.unwrap();
    let dc01_pos = result.find("DC01").unwrap();
    let dc02_pos = result.find("DC02").unwrap();
    assert!(dc01_pos < dc02_pos, "DC01 (line 1) should be listed before DC02 (line 4)");
    assert!(result.ends_with("Removed 2 unused code items!"));
}

#[test]
fn empty_class_block_gets_pass() {
    let src = "class Example:\n    def unused_method(self):\n        pass\n\n\nExample()\n";
    let method = function(
        "unused_method",
        params(&["self"]),
        vec![],
        vec![Stmt::Pass],
        at(src, "def", 0),
        past(src, "pass", 0),
    );
    let module = vec![
        class("Example", vec![], vec![method], 0, past(src, "pass", 0)),
        expr_stmt(call0(load(src, "Example", 1))),
    ];
    let (_, plans) = fix_run(&fix_no_color(), vec![(FILE, src, module)]);
    assert_eq!(fixed_text(&plans, FILE, src).unwrap(), "class Example:\n    pass\n\n\nExample()\n");
}

#[test]
fn empty_function_block_gets_pass() {
    let src = "def foo():\n    unused_local = 1\n\n\nfoo()\n";
    let module = vec![
        function(
            "foo",
            params(&[]),
            vec![],
            vec![assign(store(src, "unused_local", 0), Expr::NumberLiteral)],
            0,
            past(src, "unused_local = 1", 0),
        ),
        expr_stmt(call0(load(src, "foo", 1))),
    ];
    let (_, plans) = fix_run(&fix_no_color(), vec![(FILE, src, module)]);
    assert_eq!(fixed_text(&plans, FILE, src).unwrap(), "def foo():\n    pass\n\n\nfoo()\n");
}

/// `sys.argv[1:]`.
fn argv_tail(src: &str) -> Expr {
    Expr::Subscript {
        value: Box::new(attribute(src, load(src, "sys", 1), "argv", 0)),
        slice: Box::new(Expr::Slice { lower: Some(Box::new(Expr::NumberLiteral)), upper: None, step: None }),
    }
}

#[test]
fn empty_if_block_gets_pass() {
    let src = "import sys\n\nif sys.argv[1:]:\n    unused = 1\n";
    let module = vec![
        import(src, "sys"),
        Stmt::If {
            test: Box::new(argv_tail(src)),
            body: vec![assign(store(src, "unused", 0), Expr::NumberLiteral)],
            elif_else_clauses: vec![],
        },
    ];
    let (_, plans) = fix_run(&fix_no_color(), vec![(FILE, src, module)]);
    assert_eq!(fixed_text(&plans, FILE, src).unwrap(), "import sys\n\nif sys.argv[1:]:\n    pass\n");
}

#[test]
fn empty_else_block_gets_pass_if_branch_untouched() {
    let src = "import sys\n\nif sys.argv[1:]:\n    print(\"used\")\nelse:\n    unused = 1\n";
    let module = vec![
        import(src, "sys"),
        Stmt::If {
            test: Box::new(argv_tail(src)),
            body: vec![print_literal("used", src, 0)],
            elif_else_clauses: vec![deadcode::visitor::python_ast::ElifElseClause {
                test: None,
                body: vec![assign(store(src, "unused", 0), Expr::NumberLiteral)],
            }],
        },
    ];
    let (_, plans) = fix_run(&fix_no_color(), vec![(FILE, src, module)]);
    assert_eq!(
        fixed_text(&plans, FILE, src).unwrap(),
        "import sys\n\nif sys.argv[1:]:\n    print(\"used\")\nelse:\n    pass\n"
    );
}

#[test]
fn empty_with_block_gets_pass_and_as_binding_removed() {
    let src = "with open(\"tmp.txt\") as f:\n    unused = 1\n";
    let module = vec![Stmt::With {
        items: vec![deadcode::visitor::python_ast::WithItem {
            context_expr: Expr::Call {
                func: Box::new(load(src, "open", 0)),
                args: vec![Expr::StringLiteral { value: "tmp.txt".to_string() }],
                keywords: vec![],
            },
            optional_vars: Some(store(src, "f", 0)),
        }],
        body: vec![assign(store(src, "unused", 0), Expr::NumberLiteral)],
    }];
    let (_, plans) = fix_run(&fix_no_color(), vec![(FILE, src, module)]);
    assert_eq!(fixed_text(&plans, FILE, src).unwrap(), "with open(\"tmp.txt\"):\n    pass\n");
}

fn x_class_x(src: &str) -> Vec<Stmt> {
    vec![
        assign(store(src, "x", 0), Expr::NumberLiteral),
        class("UnusedClass", vec![], vec![Stmt::Pass], at(src, "class", 0), past(src, "pass", 0)),
        expr_stmt(Expr::Call {
            func: Box::new(load(src, "print", 0)),
            args: vec![load(src, "x", 1)],
            keywords: vec![],
        }),
    ]
}

#[test]
fn one_blank_line_kept_after_whole_class_removal() {
    let src = "x = 1\n\nclass UnusedClass:\n    pass\n\nprint(x)\n";
    let (_, plans) = fix_run(&fix_no_color(), vec![(FILE, src, x_class_x(src))]);
    assert_eq!(fixed_text(&plans, FILE, src).unwrap(), "x = 1\n\nprint(x)\n");
}

#[test]
fn two_blank_lines_kept_after_whole_class_removal() {
    let src = "x = 1\n\n\nclass UnusedClass:\n    pass\n\n\nprint(x)\n";
    let (_, plans) = fix_run(&fix_no_color(), vec![(FILE, src, x_class_x(src))]);
    assert_eq!(fixed_text(&plans, FILE, src).unwrap(), "x = 1\n\n\nprint(x)\n");
}

/// The Python files the search finds below `args.paths` in an in-memory
/// tree holding `files` (every other path below them is a directory).
fn search(args: &Args, tach: &TachIndex, files: &[&str]) -> Vec<String> {
    let mut found = Vec::new();
    let mut stack: Vec<String> = args.paths.clone();
    while let Some(path) = stack.pop() {
        let prefix = format!("{}/", path);
        let kind = if files.contains(&path.as_str()) {
            PathKind::File
        } else if files.iter().any(|f| f.starts_with(&prefix)) {
            PathKind::Dir
        } else {
            PathKind::Missing
        };
        match classify_path(args, tach, "/work", &path, kind) {
            PathDecision::PythonFile(name) => found.push(name),
            PathDecision::Descend => {
                let mut children: Vec<String> = files
                    .iter()
                    .filter_map(|f| f.strip_prefix(&prefix))
                    .map(|rest| format!("{}{}", prefix, rest.split('/').next().unwrap()))
                    .collect();
                children.sort();
                children.dedup();
                stack.extend(children);
            }
            _ => {}
        }
    }
    found
}

/// A function `NAME` with a `pass` or `return 1` body.
fn lone_function(src: &str, fname: &str) -> Vec<Stmt> {
    let body = if src.contains("return 1") {
        Stmt::Return { value: Some(Box::new(Expr::NumberLiteral)) }
    } else {
        Stmt::Pass
    };
    let end = if src.contains("return 1") { past(src, "return 1", 0) } else { past(src, "pass", 0) };
    vec![function(fname, params(&[]), vec![], vec![body], 0, end)]
}

/// Runs with the given tach.toml files over an in-memory project: the
/// files found below `paths` are walked and reported.
fn tach_run(tomls: &[(&str, &str)], paths: &[&str], sources: &[(&str, &str, &str)]) -> Option<String> {
    let configs = tomls
        .iter()
        .map(|(path, text)| deadcode::actions::parse_tach_config::tach_config_from_toml("/work", path, text).unwrap())
        .collect();
    let tach = TachIndex::new(configs);
    let args = cli(|a| {
        a.no_color = true;
        a.paths = paths.iter().map(|p| p.to_string()).collect();
        a.tach_config = tomls.iter().map(|(p, _)| p.to_string()).collect();
    });
    let mut all: Vec<&str> = tomls.iter().map(|(p, _)| *p).collect();
    all.extend(sources.iter().map(|(p, _, _)| *p));
    let found = search(&args, &tach, &all);
    let mut visitor = DeadCodeVisitor::new(&args, &tach, "/work");
    for (path, src, fname) in sources {
        if !found.iter().any(|f| f == path) {
            continue;
        }
        if visitor.prepare_file(path, src.as_bytes()).is_some() {
            visitor.visit_module(Some(&lone_function(src, fname)));
        }
    }
    let items = visitor.get_unused_code_items();
    get_unused_names_error_message(&items, &args)
}

const CORE_INTERFACE: &str = "source_roots = [\".\"]\n\n[[interfaces]]\nexpose = [\"get_data\"]\nfrom = [\"core\"]\n";
const RETURN_ONE_GET_DATA: &str = "def get_data():\n    return 1\n";
const RETURN_ONE_HELPER: &str = "def helper():\n    return 1\n";

#[test]
fn name_exposed_via_tach_interface_is_not_reported() {
    let result = tach_run(
        &[("/work/tach.toml", CORE_INTERFACE)],
        &["/work/core.py"],
        &[("/work/core.py", RETURN_ONE_GET_DATA, "get_data")],
    );
    assert_eq!(result, None);
}

#[test]
fn name_not_covered_by_any_interface_is_still_reported() {
    let result = tach_run(
        &[("/work/tach.toml", CORE_INTERFACE)],
        &["/work/core.py", "/work/domain.py"],
        &[("/work/core.py", RETURN_ONE_GET_DATA, "get_data"), ("/work/domain.py", RETURN_ONE_HELPER, "helper")],
    )
    .unwrap();
    assert!(result.contains("DC02"));
    assert!(result.contains("helper"));
    assert!(!result.contains("get_data"));
}

#[test]
fn file_under_unchecked_module_is_skipped_entirely() {
    let result = tach_run(
        &[("/work/tach.toml", "source_roots = [\".\"]\n\n[[modules]]\npath = \"legacy\"\nunchecked = true\n")],
        &["/work/legacy.py", "/work/core.py"],
        &[
            ("/work/legacy.py", "def unused_in_legacy():\n    pass\n", "unused_in_legacy"),
            ("/work/core.py", "def unused_in_core():\n    pass\n", "unused_in_core"),
        ],
    )
    .unwrap();
    assert!(!result.contains("unused_in_legacy"));
    assert!(result.contains("unused_in_core"));
}

#[test]
fn multiple_source_roots_with_literal_dotted_from_pattern() {
    let toml = "source_roots = [\"backend\", \"frontend\"]\n\n[[interfaces]]\nexpose = [\"some_function\"]\nfrom = [\"some.subpackage.module\"]\n";
    let result = tach_run(
        &[("/work/tach.toml", toml)],
        &["/work/backend/some/subpackage/module.py", "/work/frontend/util.py"],
        &[
            ("/work/backend/some/subpackage/module.py", "def some_function():\n    return 1\n", "some_function"),
            ("/work/frontend/util.py", RETURN_ONE_HELPER, "helper"),
        ],
    )
    .unwrap();
    assert!(!result.contains("some_function"));
    assert!(result.contains("helper"));
    assert!(result.contains("DC02"));
}

#[test]
fn double_star_from_pattern_across_source_roots() {
    let toml = "source_roots = [\"backend\", \"frontend\"]\n\n[[interfaces]]\nexpose = [\"get_data\"]\nfrom = [\"pkg1.**\"]\n";
    let result = tach_run(
        &[("/work/tach.toml", toml)],
        &["/work/backend/pkg1/sub/mod.py", "/work/frontend/util.py"],
        &[
            ("/work/backend/pkg1/sub/mod.py", RETURN_ONE_GET_DATA, "get_data"),
            ("/work/frontend/util.py", RETURN_ONE_HELPER, "helper"),
        ],
    )
    .unwrap();
    assert!(!result.contains("get_data"));
    assert!(result.contains("helper"));
}

#[test]
fn file_next_to_source_root_is_not_scanned() {
    let result = tach_run(
        &[("/work/tach.toml", "source_roots = [\"src\"]\n")],
        &["/work"],
        &[
            ("/work/src/core.py", "def unused_in_core():\n    pass\n", "unused_in_core"),
            ("/work/package.py", "def unused_outside_source_roots():\n    pass\n", "unused_outside_source_roots"),
        ],
    )
    .unwrap();
    assert!(result.contains("unused_in_core"));
    assert!(!result.contains("unused_outside_source_roots"));
}

#[test]
fn explicit_directory_outside_tach_project_is_still_scanned() {
    let result = tach_run(
        &[("/work/project/tach.toml", "source_roots = [\"src\"]\n")],
        &["/work/project/src", "/work/elsewhere"],
        &[
            ("/work/project/src/core.py", "def unused_in_core():\n    pass\n", "unused_in_core"),
            ("/work/elsewhere/other.py", "def unused_elsewhere():\n    pass\n", "unused_elsewhere"),
        ],
    )
    .unwrap();
    assert!(result.contains("unused_in_core"));
    assert!(result.contains("unused_elsewhere"));
}

#[test]
fn multiple_tach_config_values_are_merged() {
    let result = tach_run(
        &[
            ("/work/a.toml", "source_roots = [\".\"]\n\n[[interfaces]]\nexpose = [\"a_public\"]\nfrom = [\"a_module\"]\n"),
            ("/work/b.toml", "source_roots = [\".\"]\n\n[[interfaces]]\nexpose = [\"b_public\"]\nfrom = [\"b_module\"]\n"),
        ],
        &["/work/a_module.py", "/work/b_module.py"],
        &[
            ("/work/a_module.py", "def a_public():\n    return 1\n", "a_public"),
            ("/work/b_module.py", "def b_public():\n    return 1\n", "b_public"),
        ],
    );
    assert_eq!(result, None);
}

fn interpolation(expression: Expr, format_spec: Option<Vec<deadcode::visitor::python_ast::InterpolatedElement>>) -> deadcode::visitor::python_ast::InterpolatedElement {
    deadcode::visitor::python_ast::InterpolatedElement::Interpolation { expression: Box::new(expression), format_spec }
}

fn print_of(src: &str, n: usize, arg: Expr) -> Stmt {
    expr_stmt(Expr::Call { func: Box::new(load(src, "print", n)), args: vec![arg], keywords: vec![] })
}

fn call1(func: Expr, arg: Expr) -> Expr {
    Expr::Call { func: Box::new(func), args: vec![arg], keywords: vec![] }
}

fn mod_report(src: &str, module: Vec<Stmt>) -> Option<String> {
    one_file_report("/work/mod.py", src, module)
}

#[test]
fn tstring_file_is_analyzed() {
    let src = "unused_var = 1\n\n\ndef render(name):\n    return t\"Hello {name}\"\n\n\nrender(\"x\")\n";
    let tstring = Expr::TString {
        elements: vec![deadcode::visitor::python_ast::InterpolatedElement::Literal, interpolation(load(src, "name", 1), None)],
    };
    let module = vec![
        assign(store(src, "unused_var", 0), Expr::NumberLiteral),
        function(
            "render",
            params(&["name"]),
            vec![],
            vec![Stmt::Return { value: Some(Box::new(tstring)) }],
            at(src, "def render", 0),
            past(src, "{name}\"", 0),
        ),
        expr_stmt(call1(load(src, "render", 1), Expr::StringLiteral { value: "x".to_string() })),
    ];
    assert!(mod_report(src, module).unwrap().contains("DC01 Variable `unused_var` is never used"));
}

#[test]
fn name_used_only_inside_a_tstring_counts_as_used() {
    let src = "greeting = \"hello\"\nprint(t\"{greeting}\")\n";
    let module = vec![
        assign(store(src, "greeting", 0), Expr::StringLiteral { value: "hello".to_string() }),
        print_of(src, 0, Expr::TString { elements: vec![interpolation(load(src, "greeting", 1), None)] }),
    ];
    assert_eq!(mod_report(src, module), None);
}

#[test]
fn name_used_only_inside_a_tstring_format_spec_counts_as_used() {
    let src = "width = 3\nvalue = 1\nprint(t\"{value:{width}}\")\n";
    let module = vec![
        assign(store(src, "width", 0), Expr::NumberLiteral),
        assign(store(src, "value", 0), Expr::NumberLiteral),
        print_of(
            src,
            0,
            Expr::TString {
                elements: vec![interpolation(load(src, "value", 1), Some(vec![interpolation(load(src, "width", 1), None)]))],
            },
        ),
    ];
    assert_eq!(mod_report(src, module), None);
}

fn try_except(types: Expr) -> Stmt {
    Stmt::Try {
        body: vec![Stmt::Pass],
        handlers: vec![deadcode::visitor::python_ast::ExceptHandler { type_: Some(types), body: vec![Stmt::Pass] }],
        orelse: vec![],
        finalbody: vec![],
    }
}

#[test]
fn except_without_parentheses_is_analyzed() {
    let src = "unused_var = 1\n\n\ndef handler():\n    try:\n        pass\n    except ValueError, TypeError:\n        pass\n\n\nhandler()\n";
    let types = Expr::Tuple { elts: vec![load(src, "ValueError", 0), load(src, "TypeError", 0)] };
    let module = vec![
        assign(store(src, "unused_var", 0), Expr::NumberLiteral),
        function(
            "handler",
            params(&[]),
            vec![],
            vec![try_except(types)],
            at(src, "def handler", 0),
            past(src, "pass", 1),
        ),
        expr_stmt(call0(load(src, "handler", 1))),
    ];
    assert!(mod_report(src, module).unwrap().contains("DC01 Variable `unused_var` is never used"));
}

#[test]
fn exception_types_in_a_parenthesis_free_except_count_as_used() {
    let src = "class MyError(Exception):\n    pass\n\n\nclass OtherError(Exception):\n    pass\n\n\ntry:\n    pass\nexcept MyError, OtherError:\n    pass\n";
    let types = Expr::Tuple { elts: vec![load(src, "MyError", 1), load(src, "OtherError", 1)] };
    let module = vec![
        class("MyError", vec![load(src, "Exception", 0)], vec![Stmt::Pass], 0, past(src, "pass", 0)),
        class(
            "OtherError",
            vec![load(src, "Exception", 1)],
            vec![Stmt::Pass],
            at(src, "class OtherError", 0),
            past(src, "pass", 1),
        ),
        try_except(types),
    ];
    assert_eq!(mod_report(src, module), None);
}

#[test]
fn type_parameter_defaults_are_analyzed() {
    let src = "unused_var = 1\n\n\ndef identity[T = int](value: T) -> T:\n    return value\n\n\nidentity(1)\n";
    let parameters = Parameters {
        posonlyargs: vec![],
        args: vec![ParameterWithDefault {
            parameter: Parameter { name: "value".to_string(), annotation: Some(Box::new(load(src, "T", 1))) },
            default: None,
        }],
        vararg: None,
        kwonlyargs: vec![],
        kwarg: None,
    };
    let identity = Stmt::FunctionDef {
        name: "identity".to_string(),
        parameters: Box::new(parameters),
        decorator_list: vec![],
        return_annotation: Some(Box::new(load(src, "T", 2))),
        body: vec![Stmt::Return { value: Some(Box::new(load(src, "value", 1))) }],
        start: at(src, "def identity", 0),
        end: past(src, "return value", 0),
    };
    let module = vec![
        assign(store(src, "unused_var", 0), Expr::NumberLiteral),
        identity,
        expr_stmt(call1(load(src, "identity", 1), Expr::NumberLiteral)),
    ];
    assert!(mod_report(src, module).unwrap().contains("DC01 Variable `unused_var` is never used"));
}

/// `mapping = {"key": 2}` and `print(f"value is {mapping["key"]}")`.
fn mapping_statements(src: &str) -> Vec<Stmt> {
    let item = deadcode::visitor::python_ast::DictItem {
        key: Some(Expr::StringLiteral { value: "key".to_string() }),
        value: Expr::NumberLiteral,
    };
    let lookup = Expr::Subscript {
        value: Box::new(load(src, "mapping", 1)),
        slice: Box::new(Expr::StringLiteral { value: "key".to_string() }),
    };
    vec![
        assign(store(src, "mapping", 0), Expr::Dict { items: vec![item] }),
        print_of(
            src,
            0,
            Expr::FString { elements: vec![deadcode::visitor::python_ast::InterpolatedElement::Literal, interpolation(lookup, None)] },
        ),
    ]
}

#[test]
fn fstring_reusing_the_outer_quote_style_is_analyzed() {
    let src = "unused_var = 1\nmapping = {\"key\": 2}\nprint(f\"value is {mapping[\"key\"]}\")\n";
    let mut module = vec![assign(store(src, "unused_var", 0), Expr::NumberLiteral)];
    module.extend(mapping_statements(src));
    assert!(mod_report(src, module).unwrap().contains("DC01 Variable `unused_var` is never used"));
}

#[test]
fn name_used_only_inside_a_nested_quote_fstring_counts_as_used() {
    let src = "mapping = {\"key\": 2}\nprint(f\"value is {mapping[\"key\"]}\")\n";
    assert_eq!(mod_report(src, mapping_statements(src)), None);
}

/// `number = 2` and `print(f"result {\n    number + 1\n}")`.
fn number_statements(src: &str) -> Vec<Stmt> {
    let sum = Expr::BinOp {
        left: Box::new(load(src, "number", 1)),
        op: deadcode::visitor::python_ast::Operator::Add,
        right: Box::new(Expr::NumberLiteral),
    };
    vec![
        assign(store(src, "number", 0), Expr::NumberLiteral),
        print_of(
            src,
            0,
            Expr::FString { elements: vec![deadcode::visitor::python_ast::InterpolatedElement::Literal, interpolation(sum, None)] },
        ),
    ]
}

#[test]
fn multiline_fstring_interpolation_is_analyzed() {
    let src = "unused_var = 1\nnumber = 2\nprint(f\"result {\n    number + 1\n}\")\n";
    let mut module = vec![assign(store(src, "unused_var", 0), Expr::NumberLiteral)];
    module.extend(number_statements(src));
    assert!(mod_report(src, module).unwrap().contains("DC01 Variable `unused_var` is never used"));
}

#[test]
fn name_used_only_inside_a_multiline_fstring_counts_as_used() {
    let src = "number = 2\nprint(f\"result {\n    number + 1\n}\")\n";
    assert_eq!(mod_report(src, number_statements(src)), None);
}

#[test]
fn unused_function_is_still_found_in_a_file_using_modern_syntax() {
    let src = "def unused_function():\n    pass\n\n\ndef used_function(name):\n    return t\"Hi {name}\"\n\n\nused_function(\"x\")\n";
    let tstring = Expr::TString {
        elements: vec![deadcode::visitor::python_ast::InterpolatedElement::Literal, interpolation(load(src, "name", 1), None)],
    };
    let module = vec![
        function("unused_function", params(&[]), vec![], vec![Stmt::Pass], 0, past(src, "pass", 0)),
        function(
            "used_function",
            params(&["name"]),
            vec![],
            vec![Stmt::Return { value: Some(Box::new(tstring)) }],
            at(src, "def used_function", 0),
            past(src, "{name}\"", 0),
        ),
        expr_stmt(call1(load(src, "used_function", 1), Expr::StringLiteral { value: "x".to_string() })),
    ];
    assert!(mod_report(src, module).unwrap().contains("DC02 Function `unused_function` is never used"));
}

fn search_args(paths: &[&str], exclude: &[&str]) -> Args {
    let mut a = Args::default();
    a.paths = paths.iter().map(|p| p.to_string()).collect();
    a.exclude = exclude.iter().map(|p| p.to_string()).collect();
    a
}

#[test]
fn finds_single_file() {
    let found = search(&search_args(&["/work/cli.py"], &[]), &TachIndex::new(vec![]), &["/work/cli.py"]);
    assert_eq!(found, vec!["/work/cli.py".to_string()]);
}

#[test]
fn discovers_py_files_in_directory_recursively() {
    let files = ["/work/cli.py", "/work/utils/helpers.py", "/work/README.md"];
    let mut found = search(&search_args(&["/work"], &[]), &TachIndex::new(vec![]), &files);
    found.sort();
    assert_eq!(found, vec!["/work/cli.py".to_string(), "/work/utils/helpers.py".to_string()]);
}

#[test]
fn exclude_skips_whole_directory() {
    let files = ["/work/cli.py", "/work/utils/helpers.py"];
    let found = search(&search_args(&["/work"], &["/work/utils"]), &TachIndex::new(vec![]), &files);
    assert_eq!(found, vec!["/work/cli.py".to_string()]);
}

#[test]
fn exclude_skips_specific_file() {
    let files = ["/work/cli.py", "/work/keep.py"];
    let found = search(&search_args(&["/work"], &["/work/cli.py"]), &TachIndex::new(vec![]), &files);
    assert_eq!(found, vec!["/work/keep.py".to_string()]);
}

#[test]
fn nonexistent_path_logs_and_continues_without_crashing() {
    let found = search(&search_args(&["/definitely/does/not/exist.py"], &[]), &TachIndex::new(vec![]), &[]);
    assert!(found.is_empty());
}

#[test]
fn non_py_files_are_ignored() {
    let files = ["/work/README.md", "/work/data.json"];
    assert!(search(&search_args(&["/work"], &[]), &TachIndex::new(vec![]), &files).is_empty());
}

#[test]
fn version_flag_returns_version_string() {
    let argv = vec!["--version".to_string()];
    assert!(deadcode::cli::requests_version(Some(&argv), &[]));
    assert_eq!(deadcode::cli::VERSION, "0.1.0");
}

#[test]
fn version_flag_takes_precedence_over_path_scanning() {
    let argv = vec![".".to_string(), "--version".to_string()];
    assert!(deadcode::cli::requests_version(Some(&argv), &[]));
}

/// What a run over one file prints (see `run_output`).
fn run_one(args: &Args, src: &str, module: Option<Vec<Stmt>>) -> Option<String> {
    let tach = TachIndex::new(vec![]);
    let mut visitor = DeadCodeVisitor::new(args, &tach, "/work");
    if visitor.prepare_file(FILE, src.as_bytes()).is_some() {
        visitor.visit_module(module.as_ref());
    }
    let items = visitor.get_unused_code_items();
    let message = get_unused_names_error_message(&items, args);
    deadcode::cli::run_output(message, "", !visitor.parse_failures.is_empty())
}

fn unused_var_module(src: &str) -> Option<Vec<Stmt>> {
    Some(vec![assign(store(src, "unused_var", 0), Expr::NumberLiteral)])
}

fn used_var_module(src: &str) -> Option<Vec<Stmt>> {
    Some(vec![
        assign(store(src, "used_var", 0), Expr::NumberLiteral),
        print_of(src, 0, load(src, "used_var", 1)),
    ])
}

#[test]
fn unused_variable_end_to_end() {
    let src = "unused_var = 1\n";
    let msg = run_one(&cli(|a| a.no_color = true), src, unused_var_module(src)).unwrap();
    assert!(msg.contains("DC01"));
    assert!(msg.contains("unused_var"));
}

#[test]
fn clean_file_returns_none() {
    let src = "used_var = 1\nprint(used_var)\n";
    assert_eq!(run_one(&cli(|a| a.no_color = true), src, used_var_module(src)), None);
}

#[test]
fn quiet_mode_returns_empty_string_not_none_when_issues_found() {
    let src = "unused_var = 1\n";
    assert_eq!(run_one(&cli(|a| a.quiet = true), src, unused_var_module(src)), Some(String::new()));
}

#[test]
fn count_mode_returns_count() {
    let src = "a = 1\nb = 2\n";
    let module = Some(vec![
        assign(store(src, "a", 0), Expr::NumberLiteral),
        assign(store(src, "b", 0), Expr::NumberLiteral),
    ]);
    assert_eq!(run_one(&cli(|a| a.count = true), src, module), Some("2".to_string()));
}

fn exit_of(output: Option<String>) -> Option<(String, i32)> {
    match deadcode::cli::exit_decision(output, false) {
        deadcode::cli::ExitDecision::Clean => None,
        deadcode::cli::ExitDecision::Print { stdout, code } => Some((stdout, code)),
    }
}

#[test]
fn exits_with_status_1_when_dead_code_is_found() {
    let src = "unused_var = 1\n";
    let (_, code) = exit_of(run_one(&cli(|a| a.no_color = true), src, unused_var_module(src))).unwrap();
    assert_eq!(code, 1);
}

#[test]
fn exits_with_status_0_when_no_dead_code_is_found() {
    let src = "used_var = 1\nprint(used_var)\n";
    assert_eq!(exit_of(run_one(&cli(|a| a.no_color = true), src, used_var_module(src))), None);
}

#[test]
fn exits_with_status_1_when_quiet_and_dead_code_is_found() {
    let src = "unused_var = 1\n";
    let (stdout, code) = exit_of(run_one(&cli(|a| a.quiet = true), src, unused_var_module(src))).unwrap();
    assert_eq!(code, 1);
    assert!(stdout.is_empty());
}

#[test]
fn exits_with_status_1_when_a_file_cannot_be_parsed() {
    let (stdout, code) = exit_of(run_one(&cli(|a| a.no_color = true), "def f(:\n", None)).unwrap();
    assert_eq!(code, 1);
    assert!(stdout.is_empty());
}

#[test]
fn parse_failure_still_fails_the_run_under_quiet_and_count() {
    let quiet = run_one(&cli(|a| a.quiet = true), "def f(:\n", None);
    let count = run_one(&cli(|a| a.count = true), "def f(:\n", None);
    assert_eq!(exit_of(quiet).unwrap().1, 1);
    assert_eq!(exit_of(count).unwrap().1, 1);
}

#[test]
fn parse_failure_does_not_suppress_real_findings() {
    let args = cli(|a| a.no_color = true);
    let tach = TachIndex::new(vec![]);
    let mut visitor = DeadCodeVisitor::new(&args, &tach, "/work");
    if visitor.prepare_file("/work/broken.py", b"def f(:\n").is_some() {
        visitor.visit_module(None);
    }
    let good = "unused_var = 1\n";
    if visitor.prepare_file("/work/good.py", good.as_bytes()).is_some() {
        visitor.visit_module(unused_var_module(good).as_ref());
    }
    let items = visitor.get_unused_code_items();
    let message = get_unused_names_error_message(&items, &args);
    let output = deadcode::cli::run_output(message, "", !visitor.parse_failures.is_empty());
    let (stdout, code) = exit_of(output).unwrap();
    assert_eq!(code, 1);
    assert!(stdout.contains("unused_var"));
}

fn item_names(items: &[CodeItem]) -> Vec<&str> {
    items.iter().map(|i| i.name.as_str()).collect()
}

const FUNCTIONS_SRC: &str = "def unused_function():\n    if 2 > 1:\n        pass\n\n\ndef this_one_is_used():\n    pass\n\n\nthis_one_is_used()\n\n\ndef another_unused_function(arg1: str = '', arg2: str = 'Hello') -> None:\n    def this_is_unused_closure():\n        pass\n\n    print(arg1, arg2)\n";

#[test]
fn unused_function_and_nested_closure() {
    let items = unused_in(&Args::default(), vec![("/work/functions.py", FUNCTIONS_SRC, functions_module(FUNCTIONS_SRC))]);
    let mut sorted: Vec<&CodeItem> = items.iter().collect();
    sorted.sort_by_key(|i| i.name_line);
    let sorted_names: Vec<&str> = sorted.iter().map(|i| i.name.as_str()).collect();
    assert_eq!(sorted_names, vec!["unused_function", "another_unused_function", "this_is_unused_closure"]);
    assert_eq!(sorted[0].name_line, Some(1));
    assert_eq!(sorted[1].name_line, Some(13));
    assert_eq!(sorted[2].name_line, Some(14));
    assert_eq!(sorted[2].name_column, Some(4));
}

fn functions_module(src: &str) -> Vec<Stmt> {
    let compare = Expr::Compare { left: Box::new(Expr::NumberLiteral), comparators: vec![Expr::NumberLiteral] };
    let defaulted = |n: &str, annotation: usize| ParameterWithDefault {
        parameter: Parameter { name: n.to_string(), annotation: Some(Box::new(load(src, "str", annotation))) },
        default: Some(Box::new(Expr::StringLiteral { value: String::new() })),
    };
    let closure = function(
        "this_is_unused_closure",
        params(&[]),
        vec![],
        vec![Stmt::Pass],
        at(src, "def this_is_unused_closure", 0),
        past(src, "pass", 2),
    );
    let another = Stmt::FunctionDef {
        name: "another_unused_function".to_string(),
        parameters: Box::new(Parameters {
            posonlyargs: vec![],
            args: vec![defaulted("arg1", 0), defaulted("arg2", 1)],
            vararg: None,
            kwonlyargs: vec![],
            kwarg: None,
        }),
        decorator_list: vec![],
        return_annotation: Some(Box::new(Expr::NoneLiteral)),
        body: vec![
            closure,
            expr_stmt(Expr::Call {
                func: Box::new(load(src, "print", 0)),
                args: vec![load(src, "arg1", 1), load(src, "arg2", 1)],
                keywords: vec![],
            }),
        ],
        start: at(src, "def another_unused_function", 0),
        end: past(src, "print(arg1, arg2)", 0),
    };
    let module = vec![
        function(
            "unused_function",
            params(&[]),
            vec![],
            vec![Stmt::If { test: Box::new(compare), body: vec![Stmt::Pass], elif_else_clauses: vec![] }],
            0,
            past(src, "pass", 0),
        ),
        function("this_one_is_used", params(&[]), vec![], vec![Stmt::Pass], at(src, "def this_one_is_used", 0), past(src, "pass", 1)),
        expr_stmt(call0(load(src, "this_one_is_used", 1))),
        another,
    ];
    module
}

const CLASSES_SRC: &str = "class UnusedClass(object):\n    pass\n\n\nclass ThisClassIsUsed:\n    pass\n\n\ninstance_of_a_used_class = ThisClassIsUsed()\nprint(instance_of_a_used_class)\n\n\nclass AnotherUnusedClass:\n    def __init__(self):\n        pass\n";

fn classes_module(src: &str) -> Vec<Stmt> {
    let init = function("__init__", params(&["self"]), vec![], vec![Stmt::Pass], at(src, "def __init__", 0), past(src, "pass", 2));
    vec![
        class("UnusedClass", vec![load(src, "object", 0)], vec![Stmt::Pass], 0, past(src, "pass", 0)),
        class("ThisClassIsUsed", vec![], vec![Stmt::Pass], at(src, "class ThisClassIsUsed", 0), past(src, "pass", 1)),
        assign(store(src, "instance_of_a_used_class", 0), call0(load(src, "ThisClassIsUsed", 1))),
        print_of(src, 0, load(src, "instance_of_a_used_class", 1)),
        class("AnotherUnusedClass", vec![], vec![init], at(src, "class AnotherUnusedClass", 0), past(src, "pass", 2)),
    ]
}

#[test]
fn unused_class_reported_used_class_and_dunder_init_not_reported() {
    let items = unused_in(&Args::default(), vec![("/work/classes.py", CLASSES_SRC, classes_module(CLASSES_SRC))]);
    assert_eq!(item_names(&items), vec!["UnusedClass", "AnotherUnusedClass"]);
}

#[test]
fn unused_function_names_found_in_real_fixture_file() {
    let file = "/work/tests/files/functions.py";
    let args = cli(|a| a.no_color = true);
    let items = unused_in(&args, vec![(file, FUNCTIONS_SRC, functions_module(FUNCTIONS_SRC))]);
    let expected = format!(
        "{f}:1:0: DC02 Function `unused_function` is never used\n{f}:13:0: DC02 Function `another_unused_function` is never used\n{f}:14:4: DC02 Function `this_is_unused_closure` is never used",
        f = file
    );
    assert_eq!(get_unused_names_error_message(&items, &args), Some(expected));
}

#[test]
fn unused_class_names_found_in_real_fixture_file() {
    let file = "/work/tests/files/classes.py";
    let args = cli(|a| a.no_color = true);
    let items = unused_in(&args, vec![(file, CLASSES_SRC, classes_module(CLASSES_SRC))]);
    let expected = format!(
        "{f}:1:0: DC03 Class `UnusedClass` is never used\n{f}:13:0: DC03 Class `AnotherUnusedClass` is never used",
        f = file
    );
    assert_eq!(get_unused_names_error_message(&items, &args), Some(expected));
}

#[test]
fn a_nonexistent_second_path_does_not_affect_the_first() {
    let file = "/work/tests/files/functions.py";
    let args = cli(|a| {
        a.no_color = true;
        a.paths = vec![file.to_string(), "/work/deadcode/tests/files/functions.py".to_string()];
    });
    let found = search(&args, &TachIndex::new(vec![]), &[file]);
    assert_eq!(found, vec![file.to_string()]);
    let items = unused_in(&args, vec![(file, FUNCTIONS_SRC, functions_module(FUNCTIONS_SRC))]);
    assert!(get_unused_names_error_message(&items, &args).unwrap().contains("unused_function"));
}

#[test]
fn invalid_python_file_fails_the_run_rather_than_passing_silently() {
    let result = run_one(&cli(|a| a.no_color = true), "This is invalid python file content.", None);
    assert_eq!(result, Some(String::new()));
}

#[test]
fn module_attribute_usage_via_import() {
    let foo = "used_var = None\n";
    let bar = "import foo\nprint(foo.used_var)\n";
    let items = unused_in(
        &Args::default(),
        vec![
            ("/work/foo.py", foo, vec![assign(store(foo, "used_var", 0), Expr::NoneLiteral)]),
            ("/work/bar.py", bar, vec![import(bar, "foo"), print_of(bar, 0, attribute(bar, load(bar, "foo", 1), "used_var", 0))]),
        ],
    );
    assert!(items.is_empty());
}

#[test]
fn pytest_fixture_in_conftest_is_never_flagged() {
    let items = unused_in(&Args::default(), vec![("/work/conftest.py", FIXTURE_SRC, pytest_fixture_module(FIXTURE_SRC))]);
    assert!(items.is_empty());
}

#[test]
fn pytest_fixture_outside_pytest_location_is_flagged() {
    let items = unused_in(&Args::default(), vec![("/work/myapp/helpers.py", FIXTURE_SRC, pytest_fixture_module(FIXTURE_SRC))]);
    assert_eq!(item_names(&items), vec!["db"]);
    assert_eq!(items[0].error_code(), "DC02");
}

#[test]
fn usefixtures_mark_counts_as_usage_across_files() {
    let test_src = "import pytest\n\n@pytest.mark.usefixtures(\"db\")\ndef test_something():\n    pass\n";
    let mark = Expr::Call {
        func: Box::new(attribute(test_src, attribute(test_src, load(test_src, "pytest", 1), "mark", 0), "usefixtures", 0)),
        args: vec![Expr::StringLiteral { value: "db".to_string() }],
        keywords: vec![],
    };
    let test_module = vec![
        import(test_src, "pytest"),
        function(
            "test_something",
            params(&[]),
            vec![decorator(test_src, mark, "@pytest.mark.usefixtures(\"db\")", 0)],
            vec![Stmt::Pass],
            at(test_src, "@pytest", 0),
            past(test_src, "pass", 0),
        ),
    ];
    let items = unused_in(
        &Args::default(),
        vec![
            ("/work/myapp/helpers.py", FIXTURE_SRC, pytest_fixture_module(FIXTURE_SRC)),
            ("/work/tests/test_foo.py", test_src, test_module),
        ],
    );
    assert!(items.is_empty());
}

#[test]
fn typing_override_method_is_never_flagged() {
    let src = "import typing\n\nclass Foo(Base):\n    @typing.override\n    def method(self):\n        pass\n\nFoo()\n";
    let deco = attribute(src, load(src, "typing", 1), "override", 0);
    let module = override_module(src, Some(import(src, "typing")), Some((deco, "@typing.override")));
    assert!(unused_in(&Args::default(), vec![("/work/myapp/foo.py", src, module)]).is_empty());
}

#[test]
fn method_without_override_decorator_is_flagged() {
    let src = "class Foo(Base):\n    def method(self):\n        pass\n\nFoo()\n";
    let items = unused_in(&Args::default(), vec![("/work/myapp/foo.py", src, override_module(src, None, None))]);
    assert_eq!(item_names(&items), vec!["method"]);
    assert_eq!(items[0].error_code(), "DC04");
}

const INHERITS_FIXTURE: &str = "class UnusedClass(Base):\n    def __init__(self):\n        pass\n\n    def unused_method(self):\n        pass\n\n    unused_attribute = 1\n\n    class UnusedInnerClass:\n        pass\n\n\nclass Base:\n    pass\n\n\nclass AnotherUnusedClass:\n    def __init__(self):\n        pass\n\n    another_unused_attribute = 1\n";

fn inherits_module(src: &str) -> Vec<Stmt> {
    let inner = class("UnusedInnerClass", vec![], vec![Stmt::Pass], at(src, "class UnusedInnerClass", 0), past(src, "pass", 2));
    let unused_class = class(
        "UnusedClass",
        vec![load(src, "Base", 0)],
        vec![
            function("__init__", params(&["self"]), vec![], vec![Stmt::Pass], at(src, "def __init__", 0), past(src, "pass", 0)),
            function("unused_method", params(&["self"]), vec![], vec![Stmt::Pass], at(src, "def unused_method", 0), past(src, "pass", 1)),
            assign(store(src, "unused_attribute", 0), Expr::NumberLiteral),
            inner,
        ],
        0,
        past(src, "pass", 2),
    );
    let another = class(
        "AnotherUnusedClass",
        vec![],
        vec![
            function("__init__", params(&["self"]), vec![], vec![Stmt::Pass], at(src, "def __init__", 1), past(src, "pass", 4)),
            assign(store(src, "another_unused_attribute", 0), Expr::NumberLiteral),
        ],
        at(src, "class AnotherUnusedClass", 0),
        past(src, "another_unused_attribute = 1", 0),
    );
    vec![
        unused_class,
        class("Base", vec![], vec![Stmt::Pass], at(src, "class Base:", 0), past(src, "pass", 3)),
        another,
    ]
}

#[test]
fn ignore_bodies_if_inherits_from_suppresses_only_inner_items() {
    let mut args = Args::default();
    args.ignore_bodies_if_inherits_from = vec!["Base".to_string()];
    let items = unused_in(&args, vec![("/work/foo.py", INHERITS_FIXTURE, inherits_module(INHERITS_FIXTURE))]);
    assert_eq!(item_names(&items), vec!["UnusedClass", "AnotherUnusedClass", "another_unused_attribute"]);
}

#[test]
fn ignore_definitions_if_inherits_from_suppresses_whole_subtree() {
    let mut args = Args::default();
    args.ignore_definitions_if_inherits_from = vec!["Base".to_string()];
    let items = unused_in(&args, vec![("/work/foo.py", INHERITS_FIXTURE, inherits_module(INHERITS_FIXTURE))]);
    assert_eq!(item_names(&items), vec!["AnotherUnusedClass", "another_unused_attribute"]);
}

#[test]
fn ignore_definitions_hides_whole_subtree_by_exact_name() {
    let src = "class UnusedClass:\n    def unused_method(self):\n        pass\n\n\nclass AnotherUnusedClass:\n    pass\n";
    let method = function("unused_method", params(&["self"]), vec![], vec![Stmt::Pass], at(src, "def", 0), past(src, "pass", 0));
    let module = vec![
        class("UnusedClass", vec![], vec![method], 0, past(src, "pass", 0)),
        class("AnotherUnusedClass", vec![], vec![Stmt::Pass], at(src, "class AnotherUnusedClass", 0), past(src, "pass", 1)),
    ];
    let mut args = Args::default();
    args.ignore_definitions = vec!["UnusedClass".to_string()];
    let items = unused_in(&args, vec![("/work/foo.py", src, module)]);
    assert_eq!(item_names(&items), vec!["AnotherUnusedClass"]);
}

#[test]
fn multi_level_inheritance_chain_is_flattened() {
    let src = "class Foo:\n    pass\n\n\nclass Bar(Foo):\n    pass\n\n\nclass Spam(Bar):\n    pass\n";
    let module = vec![
        class("Foo", vec![], vec![Stmt::Pass], 0, past(src, "pass", 0)),
        class("Bar", vec![load(src, "Foo", 1)], vec![Stmt::Pass], at(src, "class Bar", 0), past(src, "pass", 1)),
        class("Spam", vec![load(src, "Bar", 1)], vec![Stmt::Pass], at(src, "class Spam", 0), past(src, "pass", 2)),
    ];
    let mut args = Args::default();
    args.ignore_definitions_if_inherits_from = vec!["Foo".to_string()];
    assert!(unused_in(&args, vec![("/work/foo.py", src, module)]).is_empty());
}

fn foo_init_module(src: &str) -> Vec<Stmt> {
    let baz_start = at(src, "self.baz", 0);
    let bar_start = at(src, "foo.bar", 0);
    let init = function(
        "__init__",
        params(&["self"]),
        vec![],
        vec![assign(
            Expr::Attribute {
                value: Box::new(load(src, "self", 1)),
                attr: "baz".to_string(),
                ctx: ExprContext::Store,
                start: baz_start,
                end: baz_start + 8,
            },
            Expr::NumberLiteral,
        )],
        at(src, "def __init__", 0),
        past(src, "self.baz = 1", 0),
    );
    vec![
        class("Foo", vec![], vec![init], 0, past(src, "self.baz = 1", 0)),
        assign(store(src, "foo", 0), call0(load(src, "Foo", 1))),
        assign(
            Expr::Attribute {
                value: Box::new(load(src, "foo", 1)),
                attr: "bar".to_string(),
                ctx: ExprContext::Store,
                start: bar_start,
                end: bar_start + 7,
            },
            Expr::StringLiteral { value: "thing".to_string() },
        ),
    ]
}

#[test]
fn self_attribute_reported_by_default_non_self_attribute_ignored_with_flag() {
    let src = "class Foo:\n    def __init__(self):\n        self.baz = 1\n\nfoo = Foo()\nfoo.bar = 'thing'\n";
    let items = unused_in(&Args::default(), vec![("/work/foo.py", src, foo_init_module(src))]);
    let mut names_found = item_names(&items);
    names_found.sort();
    assert_eq!(names_found, vec!["bar", "baz"]);
    let mut args = Args::default();
    args.ignore_non_self_attributes = true;
    let items2 = unused_in(&args, vec![("/work/foo.py", src, foo_init_module(src))]);
    assert_eq!(item_names(&items2), vec!["baz"]);
}

#[test]
fn comment_and_string_occurrences_do_not_count_as_usage() {
    let src = "# unused_var mentioned in a comment\nunused_var = 1\nprint('unused_var mentioned in a string')\n";
    let module = vec![
        assign(store(src, "unused_var", 1), Expr::NumberLiteral),
        print_of(src, 0, Expr::StringLiteral { value: "unused_var mentioned in a string".to_string() }),
    ];
    let items = unused_in(&Args::default(), vec![("/work/foo.py", src, module)]);
    assert_eq!(item_names(&items), vec!["unused_var"]);
    assert_eq!(items[0].name_line, Some(2));
}

#[test]
fn does_not_exit_with_error_status_for_version_flag() {
    match deadcode::cli::exit_decision(Some(deadcode::cli::VERSION.to_string()), true) {
        deadcode::cli::ExitDecision::Print { code, .. } => assert_eq!(code, 0),
        deadcode::cli::ExitDecision::Clean => panic!("expected the version to be printed"),
    }
}
