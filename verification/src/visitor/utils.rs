//! Names read off decorator expressions.

use vstd::prelude::*;

use crate::utils::text::{chars_of, join, join_chars};
use crate::visitor::python_ast::Expr;

verus! {

/// The dotted path of an attribute chain `a.b.c` (`[a, b, c]`); a chain that
/// does not end in a plain name keeps only its attribute names.
pub open spec fn attribute_chain(e: Expr) -> Seq<Seq<char>>
    decreases e,
{
    match e {
        Expr::Attribute { value, attr, .. } => attribute_chain(*value).push(attr@),
        Expr::Name { id, .. } => seq![id@],
        _ => Seq::empty(),
    }
}

/// The callee of a call-form decorator, or the decorator itself.
pub open spec fn decorator_target(e: Expr) -> Expr {
    match e {
        Expr::Call { func, .. } => *func,
        _ => e,
    }
}

/// `@` followed by the decorator's dotted name; call arguments never count.
pub open spec fn spec_decorator_name(e: Expr) -> Seq<char> {
    seq!['@'] + join(attribute_chain(decorator_target(e)), seq!['.'])
}

fn chain_of(e: &Expr) -> (r: Vec<Vec<char>>)
    ensures
        r@.map_values(|p: Vec<char>| p@) == attribute_chain(*e),
    decreases e,
{
    match e {
        Expr::Attribute { value, attr, .. } => {
            let mut r = chain_of(value);
            let ghost before = r@.map_values(|p: Vec<char>| p@);
            let a = chars_of(attr.as_str());
            let ghost av = a@;
            r.push(a);
            assert(r@.map_values(|p: Vec<char>| p@) =~= before.push(av));
            r
        },
        Expr::Name { id, .. } => {
            let mut r: Vec<Vec<char>> = Vec::new();
            r.push(chars_of(id.as_str()));
            assert(r@.map_values(|p: Vec<char>| p@) =~= seq![id@]);
            r
        },
        _ => {
            let r: Vec<Vec<char>> = Vec::new();
            assert(r@.map_values(|p: Vec<char>| p@) =~= Seq::<Seq<char>>::empty());
            r
        },
    }
}

/// Builds `@module.attr` (or `@name` for a bare decorator, or the callee's
/// name for a `@deco(...)` call-form decorator — call args never affect the
/// name).
pub fn get_decorator_name(decorator: &Expr) -> (r: String)
    ensures
        r@ == spec_decorator_name(*decorator),
{
    let target = match decorator {
        Expr::Call { func, .. } => &**func,
        _ => decorator,
    };
    let parts = chain_of(target);
    let dot = vec!['.'];
    assert(dot@ =~= seq!['.']);
    let joined = join_chars(&parts, dot.as_slice());
    let mut out = vec!['@'];
    let ghost jv = joined@;
    for i in 0..joined.len()
        invariant
            joined@ == jv,
            out@ == seq!['@'] + jv.take(i as int),
    {
        out.push(joined[i]);
        assert(jv.take(i + 1) =~= jv.take(i as int).push(jv[i as int]));
        assert(out@ =~= seq!['@'] + jv.take(i + 1));
    }
    assert(jv.take(joined.len() as int) =~= jv);
    crate::utils::text::string_from_chars(out.as_slice())
}

} // verus!
