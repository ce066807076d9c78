use deadcode::visitor::python_ast::{Expr, ExprContext};
use deadcode::visitor::utils::get_decorator_name;

fn name(id: &str, start: u32) -> Expr {
    Expr::Name { id: id.to_string(), ctx: ExprContext::Load, start, end: start + id.len() as u32 }
}

fn attribute(value: Expr, attr: &str, start: u32, end: u32) -> Expr {
    Expr::Attribute { value: Box::new(value), attr: attr.to_string(), ctx: ExprContext::Load, start, end }
}

#[test]
fn bare_name_decorator() {
    // @property
    let decorator = name("property", 1);
    assert_eq!(get_decorator_name(&decorator), "@property");
}

#[test]
fn dotted_attribute_decorator() {
    // @module.my_decorator
    let decorator = attribute(name("module", 1), "my_decorator", 1, 20);
    assert_eq!(get_decorator_name(&decorator), "@module.my_decorator");
}

#[test]
fn deeply_dotted_decorator() {
    // @module.my_decorator1.my_decorator2
    let inner = attribute(name("module", 1), "my_decorator1", 1, 21);
    let decorator = attribute(inner, "my_decorator2", 1, 35);
    assert_eq!(get_decorator_name(&decorator), "@module.my_decorator1.my_decorator2");
}

#[test]
fn call_form_decorator_strips_args() {
    // @module.my_decorator(1, 2)
    let func = attribute(name("module", 1), "my_decorator", 1, 20);
    let decorator = Expr::Call {
        func: Box::new(func),
        args: vec![Expr::NumberLiteral, Expr::NumberLiteral],
        keywords: vec![],
    };
    assert_eq!(get_decorator_name(&decorator), "@module.my_decorator");
}
