//! Which names a piece of code uses: names read or deleted, attributes read,
//! and the names that strings stand for where Python looks them up by name
//! (`getattr`, `__all__`, `str.format(**locals())`, `%`-formatting with
//! `locals()`, pytest's `usefixtures` and `getfixturevalue`).

use vstd::prelude::*;

use crate::utils::regex_support::{regex_group_captures_result, regex_replace_all_result};
use crate::utils::text::{chars_of, chars_range, split_chars_on, str_eq, string_from_chars};
use crate::visitor::ignore::{
    is_ignored_variable_name, spec_assigns_special_variable_all, usefixtures_decorator_names,
};
use crate::visitor::python_ast::{
    Alias, Comprehension, Decorator, DictItem, ElifElseClause, ExceptHandler, Expr, ExprContext,
    InterpolatedElement, Keyword, MatchCase, Operator, Parameter, ParameterWithDefault,
    Parameters, Pattern, PatternKeyword, Stmt, WithItem,
};
use crate::visitor::utils::spec_decorator_name;

verus! {

// ---------------------------------------------------------------------------
// String constants and `locals()`

/// The value of a string literal.
pub open spec fn str_constant(e: Expr) -> Option<Seq<char>> {
    match e {
        Expr::StringLiteral { value } => Some(value@),
        _ => None,
    }
}

/// The value of a string literal.
pub fn as_str_constant(expr: &Expr) -> (r: Option<&String>)
    ensures
        match r {
            None => str_constant(*expr) is None,
            Some(s) => str_constant(*expr) == Some(s@),
        },
{
    match expr {
        Expr::StringLiteral { value } => Some(value),
        _ => None,
    }
}

/// `locals()` called with no arguments.
pub open spec fn spec_is_locals_call(e: Expr) -> bool {
    match e {
        Expr::Call { func, args, keywords } => (match *func {
            Expr::Name { id, .. } => id@ == "locals"@,
            _ => false,
        }) && args@.len() == 0 && keywords@.len() == 0,
        _ => false,
    }
}

/// Whether the expression is `locals()`.
pub fn is_locals_call(node: &Expr) -> (r: bool)
    ensures
        r == spec_is_locals_call(*node),
{
    if let Expr::Call { func, args, keywords } = node {
        if let Expr::Name { id, .. } = &**func {
            return str_eq(id.as_str(), "locals") && args.len() == 0 && keywords.len() == 0;
        }
    }
    false
}

// ---------------------------------------------------------------------------
// `str.format` templates

/// Where the replacement field opened before `j` closes: the position of the
/// `}` that brings the brace depth (`depth` before `j`) to zero, or the end.
pub open spec fn close_index(s: Seq<char>, j: int, depth: nat) -> int
    decreases s.len() - j,
{
    if j < 0 || j >= s.len() {
        s.len() as int
    } else {
        let d: int = if s[j] == '{' {
            depth + 1int
        } else if s[j] == '}' {
            depth - 1
        } else {
            depth as int
        };
        if d <= 0 {
            j
        } else {
            close_index(s, j + 1, d as nat)
        }
    }
}

/// The length of the field name at the start of a replacement field: up to
/// the first `!` or `:`.
pub open spec fn field_name_len(f: Seq<char>, k: int) -> int
    decreases f.len() - k,
{
    if k < 0 || k >= f.len() {
        f.len() as int
    } else if f[k] == '!' || f[k] == ':' {
        k
    } else {
        field_name_len(f, k + 1)
    }
}

/// The non-empty field names of the replacement fields from position `i`
/// on; `{{` and `}}` are escapes.
pub open spec fn fields_from(s: Seq<char>, i: int) -> Seq<Seq<char>>
    decreases s.len() - i,
{
    if i < 0 || i >= s.len() {
        Seq::empty()
    } else if s[i] == '{' && i + 1 < s.len() && s[i + 1] == '{' {
        fields_from(s, i + 2)
    } else if s[i] == '}' && i + 1 < s.len() && s[i + 1] == '}' {
        fields_from(s, i + 2)
    } else if s[i] == '{' {
        let j = close_index(s, i + 1, 1);
        let f = s.subrange(i + 1, j);
        let name = f.take(field_name_len(f, 0));
        let rest = if i + 1 <= j && j + 1 < s.len() {
            fields_from(s, j + 1)
        } else {
            Seq::empty()
        };
        if name.len() > 0 {
            seq![name] + rest
        } else {
            rest
        }
    } else {
        fields_from(s, i + 1)
    }
}

proof fn lemma_close_index_bounds(s: Seq<char>, j: int, depth: nat)
    requires
        0 <= j,
    ensures
        j <= close_index(s, j, depth) <= s.len() || (j > s.len() && close_index(s, j, depth) == s.len()),
    decreases s.len() - j,
{
    if j < s.len() {
        let d: int = if s[j] == '{' {
            depth + 1int
        } else if s[j] == '}' {
            depth - 1
        } else {
            depth as int
        };
        if d > 0 {
            lemma_close_index_bounds(s, j + 1, d as nat);
        }
    }
}

proof fn lemma_field_name_len_bounds(f: Seq<char>, k: int)
    requires
        0 <= k <= f.len(),
    ensures
        k <= field_name_len(f, k) <= f.len(),
    decreases f.len() - k,
{
    if k < f.len() && f[k] != '!' && f[k] != ':' {
        lemma_field_name_len_bounds(f, k + 1);
    }
}

/// The field names of a `str.format()` template (`{{`/`}}` escapes skipped,
/// `!conversion` and `:format_spec` suffixes cut off, empty names dropped).
pub fn parse_format_fields(s: &str) -> (r: Vec<String>)
    ensures
        string_views_of(r@) == fields_from(s@, 0),
{
    let chars = chars_of(s);
    let n = chars.len();
    let mut fields: Vec<String> = Vec::new();
    let mut i: usize = 0;
    while i < n
        invariant
            chars@ == s@,
            n == chars.len(),
            string_views_of(fields@) + fields_from(chars@, i as int) == fields_from(chars@, 0),
        decreases n - i,
    {
        if chars[i] == '{' && i + 1 < n && chars[i + 1] == '{' {
            i = i + 2;
        } else if chars[i] == '}' && i + 1 < n && chars[i + 1] == '}' {
            i = i + 2;
        } else if chars[i] == '{' {
            let start = i + 1;
            let mut depth: usize = 1;
            let mut j = start;
            while j < n && depth > 0
                invariant
                    1 <= start <= j <= n,
                    n == chars.len(),
                    depth <= j - start + 1,
                    close_index(chars@, start as int, 1) == if depth == 0 {
                        j as int
                    } else {
                        close_index(chars@, j as int, depth as nat)
                    },
                decreases n - j + (if depth > 0 { 1int } else { 0int }),
            {
                if chars[j] == '{' {
                    depth = depth + 1;
                } else if chars[j] == '}' {
                    depth = depth - 1;
                }
                if depth > 0 {
                    j = j + 1;
                }
            }
            proof {
                lemma_close_index_bounds(chars@, start as int, 1);
            }
            let full = chars_range(chars.as_slice(), start, j);
            let mut k: usize = 0;
            while k < full.len() && full[k] != '!' && full[k] != ':'
                invariant
                    k <= full.len(),
                    field_name_len(full@, 0) == field_name_len(full@, k as int),
                decreases full.len() - k,
            {
                k = k + 1;
            }
            proof {
                lemma_field_name_len_bounds(full@, 0);
            }
            let name = chars_range(full.as_slice(), 0, k);
            assert(name@ =~= full@.take(field_name_len(full@, 0)));
            if k > 0 {
                let ghost before = string_views_of(fields@);
                let nm = string_from_chars(name.as_slice());
                fields.push(nm);
                assert(string_views_of(fields@) =~= before.push(name@));
                assert(before.push(name@) + fields_from(chars@, j + 1) =~= before + (seq![name@]
                    + fields_from(chars@, j + 1)));
            }
            assert(fields_from(chars@, j + 1) == fields_from(chars@, if j < n { j + 1 } else { n as int }));
            i = if j < n { j + 1 } else { n };
        } else {
            i = i + 1;
        }
    }
    assert(fields_from(chars@, i as int) =~= Seq::<Seq<char>>::empty());
    assert(string_views_of(fields@) + Seq::<Seq<char>>::empty() =~= string_views_of(fields@));
    fields
}

/// The views of some strings.
pub open spec fn string_views_of(v: Seq<String>) -> Seq<Seq<char>> {
    v.map_values(|s: String| s@)
}

/// Starts with an ASCII letter or an underscore.
pub open spec fn spec_is_identifier_like(name: Seq<char>) -> bool {
    name.len() > 0 && (('a' <= name[0] && name[0] <= 'z') || ('A' <= name[0] && name[0] <= 'Z')
        || name[0] == '_')
}

/// Whether a name starts like an identifier (an ASCII letter or `_`).
pub fn is_identifier_like(name: &str) -> (r: bool)
    ensures
        r == spec_is_identifier_like(name@),
{
    let cs = chars_of(name);
    if cs.len() == 0 {
        return false;
    }
    let c = cs[0];
    ('a' <= c && c <= 'z') || ('A' <= c && c <= 'Z') || c == '_'
}

/// `\[\w*\]`: an index like `[0]` or `[key]` in a field name.
pub open spec fn bracket_regex() -> Seq<char> {
    seq!['\\', '[', '\\', 'w', '*', '\\', ']']
}

/// `%\((\w+)\)`: a `%(name)` placeholder.
pub open spec fn percent_regex() -> Seq<char> {
    seq!['%', '\\', '(', '(', '\\', 'w', '+', ')', '\\', ')']
}

/// A field name with its indexes removed (left as it is if the pattern
/// could not be compiled).
pub open spec fn without_indexes(field: Seq<char>) -> Seq<char> {
    match regex_replace_all_result(bracket_regex(), field, Seq::empty()) {
        Some(t) => t,
        None => field,
    }
}

/// The names a `str.format(**locals())` template reads: each dotted piece,
/// starting like an identifier, of each field name with indexes removed.
pub open spec fn format_uses(template: Seq<char>) -> Set<Seq<char>> {
    let fields = fields_from(template, 0);
    Set::new(
        |v: Seq<char>|
            exists|i: int, k: int|
                0 <= i < fields.len() && 0 <= k < split_chars_on(without_indexes(fields[i]), '.').len()
                    && #[trigger] split_chars_on(without_indexes(fields[i]), '.')[k] == v
                    && spec_is_identifier_like(v),
    )
}

/// The names of the `%(name)` placeholders of a `%`-template.
pub open spec fn percent_uses(template: Seq<char>) -> Set<Seq<char>> {
    match regex_group_captures_result(percent_regex(), template, 1) {
        Some(caps) => Set::new(|v: Seq<char>| exists|i: int| 0 <= i < caps.len() && #[trigger] caps[i] == Some(v)),
        None => Set::empty(),
    }
}

// ---------------------------------------------------------------------------
// Expressions

/// A plain name counts as used where it is read or deleted, unless it is
/// `object` or `self`.
pub open spec fn name_uses(id: Seq<char>, ctx: ExprContext) -> Set<Seq<char>> {
    if (ctx == ExprContext::Load || ctx == ExprContext::Del) && !is_ignored_variable_name(id) {
        set![id]
    } else {
        Set::empty()
    }
}

/// The value of argument `k` if it is a string literal.
pub open spec fn string_arg_uses(args: Seq<Expr>, k: int) -> Set<Seq<char>> {
    if 0 <= k < args.len() {
        match str_constant(args[k]) {
            Some(s) => set![s],
            None => Set::empty(),
        }
    } else {
        Set::empty()
    }
}

/// Some keyword argument is `**locals()`.
pub open spec fn has_locals_kwargs(keywords: Seq<Keyword>) -> bool {
    exists|k: int|
        0 <= k < keywords.len() && (#[trigger] keywords[k]).arg is None && spec_is_locals_call(
            keywords[k].value,
        )
}

/// What a call names through strings: `getattr(obj, "name"[, default])`,
/// `hasattr(obj, "name")`, `request.getfixturevalue("name")`, and
/// `"template".format(**locals())`.
pub open spec fn call_uses(func: Expr, args: Seq<Expr>, keywords: Seq<Keyword>) -> Set<Seq<char>> {
    match func {
        Expr::Name { id, .. } => if (id@ == "getattr"@ && 2 <= args.len() <= 3) || (id@ == "hasattr"@
            && args.len() == 2) {
            string_arg_uses(args, 1)
        } else {
            Set::empty()
        },
        Expr::Attribute { value, attr, .. } => (if attr@ == "getfixturevalue"@ && args.len() == 1 {
            string_arg_uses(args, 0)
        } else {
            Set::empty()
        }).union(
            if attr@ == "format"@ && str_constant(*value) is Some && has_locals_kwargs(keywords) {
                format_uses(str_constant(*value)->0)
            } else {
                Set::empty()
            },
        ),
        _ => Set::empty(),
    }
}

/// What `"template" % locals()` names through its placeholders.
pub open spec fn binop_uses(left: Expr, op: Operator, right: Expr) -> Set<Seq<char>> {
    if str_constant(left) is Some && op == Operator::Mod && spec_is_locals_call(right) {
        percent_uses(str_constant(left)->0)
    } else {
        Set::empty()
    }
}

/// The names an expression uses.
pub open spec fn expr_uses(e: Expr) -> Set<Seq<char>>
    decreases e,
{
    match e {
        Expr::Name { id, ctx, .. } => name_uses(id@, ctx),
        Expr::Attribute { value, attr, ctx, .. } => (if ctx == ExprContext::Load {
            set![attr@]
        } else {
            Set::empty()
        }).union(expr_uses(*value)),
        Expr::Call { func, args, keywords } => call_uses(*func, args@, keywords@).union(
            expr_uses(*func),
        ).union(exprs_uses(args@)).union(keywords_uses(keywords@)),
        Expr::BinOp { left, op, right } => binop_uses(*left, op, *right).union(expr_uses(*left)).union(
            expr_uses(*right),
        ),
        Expr::BoolOp { values } => exprs_uses(values@),
        Expr::UnaryOp { operand } => expr_uses(*operand),
        Expr::Named { target, value } => expr_uses(*target).union(expr_uses(*value)),
        Expr::Lambda { parameters, body } => (match parameters {
            Some(p) => parameters_uses(*p),
            None => Set::empty(),
        }).union(expr_uses(*body)),
        Expr::IfExp { test, body, orelse } => expr_uses(*test).union(expr_uses(*body)).union(
            expr_uses(*orelse),
        ),
        Expr::Dict { items } => dict_items_uses(items@),
        Expr::SetDisplay { elts } => exprs_uses(elts@),
        Expr::ListComp { elt, generators } => expr_uses(*elt).union(comprehensions_uses(generators@)),
        Expr::SetComp { elt, generators } => expr_uses(*elt).union(comprehensions_uses(generators@)),
        Expr::DictComp { key, value, generators } => (match key {
            Some(k) => expr_uses(*k),
            None => Set::empty(),
        }).union(expr_uses(*value)).union(comprehensions_uses(generators@)),
        Expr::Generator { elt, generators } => expr_uses(*elt).union(comprehensions_uses(generators@)),
        Expr::Await { value } => expr_uses(*value),
        Expr::Yield { value } => match value {
            Some(v) => expr_uses(*v),
            None => Set::empty(),
        },
        Expr::YieldFrom { value } => expr_uses(*value),
        Expr::Compare { left, comparators } => expr_uses(*left).union(exprs_uses(comparators@)),
        Expr::FString { elements } => elements_uses(elements@),
        Expr::TString { elements } => elements_uses(elements@),
        Expr::Subscript { value, slice } => expr_uses(*value).union(expr_uses(*slice)),
        Expr::Starred { value } => expr_uses(*value),
        Expr::List { elts } => exprs_uses(elts@),
        Expr::Tuple { elts } => exprs_uses(elts@),
        Expr::Slice { lower, upper, step } => (match lower {
            Some(x) => expr_uses(*x),
            None => Set::empty(),
        }).union(
            match upper {
                Some(x) => expr_uses(*x),
                None => Set::empty(),
            },
        ).union(
            match step {
                Some(x) => expr_uses(*x),
                None => Set::empty(),
            },
        ),
        _ => Set::empty(),
    }
}

/// The names some expressions use.
pub open spec fn exprs_uses(es: Seq<Expr>) -> Set<Seq<char>>
    decreases es,
{
    if es.len() == 0 {
        Set::empty()
    } else {
        exprs_uses(es.subrange(0, es.len() - 1)).union(expr_uses(es[es.len() - 1]))
    }
}

/// The names the values of some keyword arguments use.
pub open spec fn keywords_uses(ks: Seq<Keyword>) -> Set<Seq<char>>
    decreases ks,
{
    if ks.len() == 0 {
        Set::empty()
    } else {
        keywords_uses(ks.subrange(0, ks.len() - 1)).union(expr_uses(ks[ks.len() - 1].value))
    }
}

/// The names the keys and values of a dict display use.
pub open spec fn dict_items_uses(items: Seq<DictItem>) -> Set<Seq<char>>
    decreases items,
{
    if items.len() == 0 {
        Set::empty()
    } else {
        let item = items[items.len() - 1];
        dict_items_uses(items.subrange(0, items.len() - 1)).union(
            match item.key {
                Some(k) => expr_uses(k),
                None => Set::empty(),
            },
        ).union(expr_uses(item.value))
    }
}

/// The names the clauses of a comprehension use.
pub open spec fn comprehensions_uses(gens: Seq<Comprehension>) -> Set<Seq<char>>
    decreases gens,
{
    if gens.len() == 0 {
        Set::empty()
    } else {
        let g = gens[gens.len() - 1];
        comprehensions_uses(gens.subrange(0, gens.len() - 1)).union(expr_uses(g.target)).union(
            expr_uses(g.iter),
        ).union(exprs_uses(g.ifs@))
    }
}

/// The names the interpolations of an f-string or t-string use.
pub open spec fn elements_uses(elements: Seq<InterpolatedElement>) -> Set<Seq<char>>
    decreases elements,
{
    if elements.len() == 0 {
        Set::empty()
    } else {
        elements_uses(elements.subrange(0, elements.len() - 1)).union(
            element_uses(elements[elements.len() - 1]),
        )
    }
}

/// The names one piece of an f-string or t-string uses.
pub open spec fn element_uses(element: InterpolatedElement) -> Set<Seq<char>>
    decreases element,
{
    match element {
        InterpolatedElement::Literal => Set::empty(),
        InterpolatedElement::Interpolation { expression, format_spec } => expr_uses(*expression).union(
            match format_spec {
                Some(spec) => elements_uses(spec@),
                None => Set::empty(),
            },
        ),
    }
}

/// The names a parameter's annotation uses.
pub open spec fn parameter_uses(p: Parameter) -> Set<Seq<char>>
    decreases p,
{
    match p.annotation {
        Some(a) => expr_uses(*a),
        None => Set::empty(),
    }
}

/// The names the annotations and defaults of some parameters use.
pub open spec fn defaulted_uses(ps: Seq<ParameterWithDefault>) -> Set<Seq<char>>
    decreases ps,
{
    if ps.len() == 0 {
        Set::empty()
    } else {
        let p = ps[ps.len() - 1];
        defaulted_uses(ps.subrange(0, ps.len() - 1)).union(parameter_uses(p.parameter)).union(
            match p.default {
                Some(d) => expr_uses(*d),
                None => Set::empty(),
            },
        )
    }
}

/// The names a parameter list uses in its annotations and defaults.
pub open spec fn parameters_uses(p: Parameters) -> Set<Seq<char>>
    decreases p,
{
    defaulted_uses(p.posonlyargs@).union(defaulted_uses(p.args@)).union(defaulted_uses(p.kwonlyargs@)).union(
        match p.vararg {
            Some(v) => parameter_uses(v),
            None => Set::empty(),
        },
    ).union(
        match p.kwarg {
            Some(k) => parameter_uses(k),
            None => Set::empty(),
        },
    )
}

// ---------------------------------------------------------------------------
// Statements

/// The string literals among some expressions.
pub open spec fn string_constants(es: Seq<Expr>) -> Set<Seq<char>> {
    Set::new(|v: Seq<char>| exists|i: int| 0 <= i < es.len() && str_constant(#[trigger] es[i]) == Some(v))
}

/// The fixtures a `usefixtures` mark names by string.
pub open spec fn usefixtures_uses(e: Expr) -> Set<Seq<char>> {
    if usefixtures_decorator_names().contains(spec_decorator_name(e)) {
        match e {
            Expr::Call { args, .. } => string_constants(args@),
            _ => Set::empty(),
        }
    } else {
        Set::empty()
    }
}

/// The fixtures that some decorators name by string.
pub open spec fn decorators_fixture_uses(ds: Seq<Decorator>) -> Set<Seq<char>> {
    Set::new(
        |v: Seq<char>|
            exists|i: int| 0 <= i < ds.len() && usefixtures_uses(#[trigger] ds[i].expression).contains(v),
    )
}

/// The names the expressions of some decorators use.
pub open spec fn decorators_expr_uses(ds: Seq<Decorator>) -> Set<Seq<char>>
    decreases ds,
{
    if ds.len() == 0 {
        Set::empty()
    } else {
        decorators_expr_uses(ds.subrange(0, ds.len() - 1)).union(expr_uses(ds[ds.len() - 1].expression))
    }
}

/// The names some decorators use: the fixtures they name and what their
/// expressions use.
pub open spec fn decorators_uses(ds: Seq<Decorator>) -> Set<Seq<char>> {
    decorators_fixture_uses(ds).union(decorators_expr_uses(ds))
}

/// An import under another name uses the imported name.
pub open spec fn aliases_uses(aliases: Seq<Alias>) -> Set<Seq<char>> {
    Set::new(
        |v: Seq<char>|
            exists|i: int|
                0 <= i < aliases.len() && (#[trigger] aliases[i]).asname is Some && aliases[i].name@ == v,
    )
}

/// `__all__ = [...]` or `(...)` uses the names it lists as strings.
pub open spec fn all_listing_uses(targets: Seq<Expr>, value: Expr) -> Set<Seq<char>> {
    if spec_assigns_special_variable_all(targets) {
        match value {
            Expr::List { elts } => string_constants(elts@),
            Expr::Tuple { elts } => string_constants(elts@),
            _ => Set::empty(),
        }
    } else {
        Set::empty()
    }
}

/// The names a `match` pattern uses.
pub open spec fn pattern_uses(p: Pattern) -> Set<Seq<char>>
    decreases p,
{
    match p {
        Pattern::MatchValue { value } => expr_uses(value),
        Pattern::MatchSequence { patterns } => patterns_uses(patterns@),
        Pattern::MatchMapping { keys, patterns } => exprs_uses(keys@).union(patterns_uses(patterns@)),
        Pattern::MatchClass { cls, patterns, keywords } => expr_uses(cls).union(patterns_uses(patterns@)).union(
            pattern_keywords_uses(keywords@),
        ),
        Pattern::MatchAs { pattern } => match pattern {
            Some(q) => pattern_uses(*q),
            None => Set::empty(),
        },
        Pattern::MatchOr { patterns } => patterns_uses(patterns@),
        _ => Set::empty(),
    }
}

/// The names some patterns use.
pub open spec fn patterns_uses(ps: Seq<Pattern>) -> Set<Seq<char>>
    decreases ps,
{
    if ps.len() == 0 {
        Set::empty()
    } else {
        patterns_uses(ps.subrange(0, ps.len() - 1)).union(pattern_uses(ps[ps.len() - 1]))
    }
}

/// The attributes named by `attr=pattern` in a class pattern, and what the
/// patterns use.
pub open spec fn pattern_keywords_uses(ks: Seq<PatternKeyword>) -> Set<Seq<char>>
    decreases ks,
{
    if ks.len() == 0 {
        Set::empty()
    } else {
        let k = ks[ks.len() - 1];
        pattern_keywords_uses(ks.subrange(0, ks.len() - 1)).insert(k.attr@).union(pattern_uses(k.pattern))
    }
}

/// The names a statement uses.
pub open spec fn stmt_uses(s: Stmt) -> Set<Seq<char>>
    decreases s,
{
    match s {
        Stmt::ClassDef { bases, keywords, decorator_list, body, .. } => decorators_uses(
            decorator_list@,
        ).union(exprs_uses(bases@)).union(keywords_uses(keywords@)).union(stmts_uses(body@)),
        Stmt::FunctionDef { parameters, decorator_list, return_annotation, body, .. } => decorators_uses(
            decorator_list@,
        ).union(parameters_uses(*parameters)).union(
            match return_annotation {
                Some(r) => expr_uses(*r),
                None => Set::empty(),
            },
        ).union(stmts_uses(body@)),
        Stmt::Import { names } => aliases_uses(names@),
        Stmt::ImportFrom { module, names } => if module is Some && module->0@ == "__future__"@ {
            Set::empty()
        } else {
            aliases_uses(names@)
        },
        Stmt::Assign { targets, value } => all_listing_uses(targets@, *value).union(exprs_uses(targets@)).union(
            expr_uses(*value),
        ),
        Stmt::AnnAssign { target, annotation, value } => expr_uses(*target).union(expr_uses(*annotation)).union(
            match value {
                Some(v) => expr_uses(*v),
                None => Set::empty(),
            },
        ),
        Stmt::AugAssign { target, value } => expr_uses(*target).union(expr_uses(*value)),
        Stmt::Return { value } => match value {
            Some(v) => expr_uses(*v),
            None => Set::empty(),
        },
        Stmt::Delete { targets } => exprs_uses(targets@),
        Stmt::For { target, iter, body, orelse } => expr_uses(*target).union(expr_uses(*iter)).union(
            stmts_uses(body@),
        ).union(stmts_uses(orelse@)),
        Stmt::While { test, body, orelse } => expr_uses(*test).union(stmts_uses(body@)).union(
            stmts_uses(orelse@),
        ),
        Stmt::If { test, body, elif_else_clauses } => expr_uses(*test).union(stmts_uses(body@)).union(
            clauses_uses(elif_else_clauses@),
        ),
        Stmt::With { items, body } => with_items_uses(items@).union(stmts_uses(body@)),
        Stmt::Match { subject, cases } => expr_uses(*subject).union(cases_uses(cases@)),
        Stmt::Raise { exc, cause } => (match exc {
            Some(x) => expr_uses(*x),
            None => Set::empty(),
        }).union(
            match cause {
                Some(x) => expr_uses(*x),
                None => Set::empty(),
            },
        ),
        Stmt::Try { body, handlers, orelse, finalbody } => stmts_uses(body@).union(
            handlers_uses(handlers@),
        ).union(stmts_uses(orelse@)).union(stmts_uses(finalbody@)),
        Stmt::Assert { test, msg } => expr_uses(*test).union(
            match msg {
                Some(m) => expr_uses(*m),
                None => Set::empty(),
            },
        ),
        Stmt::ExprStmt { value } => expr_uses(*value),
        Stmt::TypeAlias { value } => expr_uses(*value),
        _ => Set::empty(),
    }
}

/// The names some statements use.
pub open spec fn stmts_uses(ss: Seq<Stmt>) -> Set<Seq<char>>
    decreases ss,
{
    if ss.len() == 0 {
        Set::empty()
    } else {
        stmts_uses(ss.subrange(0, ss.len() - 1)).union(stmt_uses(ss[ss.len() - 1]))
    }
}

/// The names the `elif`/`else` clauses of an `if` use.
pub open spec fn clauses_uses(cs: Seq<ElifElseClause>) -> Set<Seq<char>>
    decreases cs,
{
    if cs.len() == 0 {
        Set::empty()
    } else {
        let c = cs[cs.len() - 1];
        clauses_uses(cs.subrange(0, cs.len() - 1)).union(
            match c.test {
                Some(t) => expr_uses(t),
                None => Set::empty(),
            },
        ).union(stmts_uses(c.body@))
    }
}

/// The names the items of a `with` use.
pub open spec fn with_items_uses(items: Seq<WithItem>) -> Set<Seq<char>>
    decreases items,
{
    if items.len() == 0 {
        Set::empty()
    } else {
        let it = items[items.len() - 1];
        with_items_uses(items.subrange(0, items.len() - 1)).union(expr_uses(it.context_expr)).union(
            match it.optional_vars {
                Some(v) => expr_uses(v),
                None => Set::empty(),
            },
        )
    }
}

/// The names the cases of a `match` use.
pub open spec fn cases_uses(cs: Seq<MatchCase>) -> Set<Seq<char>>
    decreases cs,
{
    if cs.len() == 0 {
        Set::empty()
    } else {
        let c = cs[cs.len() - 1];
        cases_uses(cs.subrange(0, cs.len() - 1)).union(pattern_uses(c.pattern)).union(
            match c.guard {
                Some(g) => expr_uses(g),
                None => Set::empty(),
            },
        ).union(stmts_uses(c.body@))
    }
}

/// The names the `except` clauses of a `try` use.
pub open spec fn handlers_uses(hs: Seq<ExceptHandler>) -> Set<Seq<char>>
    decreases hs,
{
    if hs.len() == 0 {
        Set::empty()
    } else {
        let h = hs[hs.len() - 1];
        handlers_uses(hs.subrange(0, hs.len() - 1)).union(
            match h.type_ {
                Some(t) => expr_uses(t),
                None => Set::empty(),
            },
        ).union(stmts_uses(h.body@))
    }
}

/// `e` is a call of the plain name `f` with `n` positional arguments, the
/// second of which is the string literal `name`.
pub open spec fn calls_with_string_second(e: Expr, f: Seq<char>, n: nat, name: Seq<char>) -> bool {
    match e {
        Expr::Call { func, args, .. } => match *func {
            Expr::Name { id, .. } => id@ == f && args@.len() == n && str_constant(args@[1]) == Some(
                name,
            ),
            _ => false,
        },
        _ => false,
    }
}

/// `getattr(obj, "name")`, `getattr(obj, "name", default)` and
/// `hasattr(obj, "name")` use the attribute `name`.
pub proof fn law_getattr_and_hasattr_strings_are_used(e: Expr, name: Seq<char>)
    requires
        calls_with_string_second(e, "getattr"@, 2, name) || calls_with_string_second(
            e,
            "getattr"@,
            3,
            name,
        ) || calls_with_string_second(e, "hasattr"@, 2, name),
    ensures
        expr_uses(e).contains(name),
{
    match e {
        Expr::Call { func, args, keywords } => {
            assert(call_uses(*func, args@, keywords@).contains(name));
        },
        _ => {},
    }
}

} // verus!
