//! What walking a module records besides the names it uses: the definitions
//! of each kind, the classes registered with their inherits-from chains, and
//! the scope and the suppression of definitions that the walk carries from
//! one node to the next.

use vstd::prelude::*;

use crate::actions::parse_tach_config::{spec_is_exposed, TachIndex};
use crate::constants::spec_error_code;
use crate::data_types::{Args, Part};
use crate::utils::fnmatch::{spec_match_any, spec_match_many};
use crate::utils::line_index::line_of;
use crate::utils::nested_scopes::ScopeRecord;
use crate::utils::text::{join, split_chars_on, string_views};
use crate::visitor::code_item::{spec_as_posix, CodeItemView};
use crate::visitor::dead_code_visitor::{
    definition_start, function_definition, kind_type, spec_inherits_from, DefinedKind, ScopeKind,
};
use crate::visitor::ignore::{
    spec_ignore_class, spec_ignore_import, spec_ignore_variable, spec_is_self_attribute_target,
};
use crate::visitor::noqa::NoqaLines;
use crate::visitor::python_ast::{
    Alias, Comprehension, Decorator, DictItem, ElifElseClause, ExceptHandler, Expr, ExprContext,
    InterpolatedElement, Keyword, MatchCase, Parameter, ParameterWithDefault, Parameters, Pattern,
    PatternKeyword, Stmt, WithItem,
};

verus! {

/// What stays fixed while a file is walked: the options, the tach projects,
/// the working directory, the file, its source and line starts, and its
/// `# noqa` comments.
pub struct WalkEnv {
    pub options: Args,
    pub tach: TachIndex,
    pub cwd: Seq<char>,
    pub file: Seq<char>,
    pub source: Seq<u8>,
    pub starts: Seq<u32>,
    pub noqa: NoqaLines,
}

/// What walking changes besides the used names: the definitions of each
/// kind, the registered classes, the scope (names and kinds) and whether
/// new definitions are suppressed.
#[verifier::ext_equal]
pub struct WalkState {
    pub attrs: Seq<CodeItemView>,
    pub classes: Seq<CodeItemView>,
    pub funcs: Seq<CodeItemView>,
    pub imports: Seq<CodeItemView>,
    pub methods: Seq<CodeItemView>,
    pub props: Seq<CodeItemView>,
    pub vars: Seq<CodeItemView>,
    pub class_records: Seq<ScopeRecord>,
    pub scope: Seq<Seq<char>>,
    pub kinds: Seq<ScopeKind>,
    pub ignoring: bool,
}

impl WalkState {
    /// One more definition of a kind.
    pub open spec fn with_def(self, kind: DefinedKind, item: CodeItemView) -> WalkState {
        match kind {
            DefinedKind::Attribute => WalkState { attrs: self.attrs.push(item), ..self },
            DefinedKind::Class => WalkState { classes: self.classes.push(item), ..self },
            DefinedKind::Function => WalkState { funcs: self.funcs.push(item), ..self },
            DefinedKind::Import => WalkState { imports: self.imports.push(item), ..self },
            DefinedKind::Method => WalkState { methods: self.methods.push(item), ..self },
            DefinedKind::Property => WalkState { props: self.props.push(item), ..self },
            DefinedKind::Variable => WalkState { vars: self.vars.push(item), ..self },
        }
    }

    /// Directly inside a class body.
    pub open spec fn in_class_body(self) -> bool {
        self.kinds.len() > 0 && self.kinds.last() == ScopeKind::Class
    }

    /// The class a definition made now sits directly in.
    pub open spec fn enclosing_class(self) -> Option<Seq<char>> {
        if self.in_class_body() && self.scope.len() > 0 {
            Some(self.scope.last())
        } else {
            None
        }
    }

    /// The dotted scope a definition made now is recorded with.
    pub open spec fn scope_string(self) -> Option<Seq<char>> {
        if self.scope.len() == 0 {
            None
        } else {
            Some(join(self.scope, seq!['.']))
        }
    }

    /// Entering a class or function scope.
    pub open spec fn enter(self, name: Seq<char>, kind: ScopeKind) -> WalkState {
        WalkState { scope: self.scope.push(name), kinds: self.kinds.push(kind), ..self }
    }

    /// Leaving the innermost scope.
    pub open spec fn leave(self) -> WalkState {
        WalkState { scope: self.scope.drop_last(), kinds: self.kinds.drop_last(), ..self }
    }

    /// With new definitions suppressed or not.
    pub open spec fn with_ignoring(self, ignoring: bool) -> WalkState {
        WalkState { ignoring, ..self }
    }
}

/// The line a definition is reported on: that of its `def`/`class` keyword.
pub open spec fn definition_line(env: WalkEnv, start: u32, decorators: Seq<Decorator>) -> int {
    line_of(env.starts, definition_start(env.source, start, decorators) as u32)
}

/// A definition named `name`, reported on line `line`, is not recorded:
/// its kind's own rule, `--ignore-names`, `--ignore-names-in-files`, an
/// ignored enclosing class, a `# noqa` comment or a tach interface.
pub open spec fn definition_ignored(
    env: WalkEnv,
    st: WalkState,
    kind: DefinedKind,
    name: Seq<char>,
    line: u32,
    type_specific_ignored: bool,
) -> bool {
    ||| type_specific_ignored
    ||| spec_match_any(name, string_views(env.options.ignore_names@), true)
    ||| spec_match_any(spec_as_posix(env.file), string_views(env.options.ignore_names_in_files@), true)
    ||| st.ignoring
    ||| env.noqa.suppresses(spec_error_code(kind_type(kind)), line)
    ||| env.noqa.suppresses("all"@, line)
    ||| spec_is_exposed(env.tach.configs(), env.cwd, env.file, st.enclosing_class(), name)
}

/// The item recorded for a definition named `name` of kind `kind` spanning
/// `start..end` (from its first decorator), reported at its keyword.
pub open spec fn definition_item(
    env: WalkEnv,
    st: WalkState,
    kind: DefinedKind,
    name: Seq<char>,
    start: u32,
    end: u32,
    decorators: Seq<Decorator>,
    inherits_from: Option<Seq<Seq<char>>>,
) -> CodeItemView {
    let starts = env.starts;
    let at = definition_start(env.source, start, decorators);
    let line = line_of(starts, at as u32);
    let first = if decorators.len() > 0 {
        line_of(starts, decorators[0].start)
    } else {
        line
    };
    let last = line_of(starts, end);
    let column = at - starts[line - 1];
    let part = Part {
        line_start: first as u32,
        line_end: last as u32,
        col_start: column as u32,
        col_end: (end - starts[last - 1]) as u32,
    };
    CodeItemView {
        name,
        type_: kind_type(kind),
        filename: env.file,
        code_parts: seq![part],
        scope: st.scope_string(),
        inherits_from,
        name_line: Some(line as u32),
        name_column: Some(column as u32),
        message: Seq::empty(),
        number_of_uses: 0,
    }
}

/// A definition: a class with an inherits-from chain is registered under the
/// current scope; the item is recorded unless the definition is ignored.
pub open spec fn define(
    env: WalkEnv,
    st: WalkState,
    kind: DefinedKind,
    name: Seq<char>,
    start: u32,
    end: u32,
    decorators: Seq<Decorator>,
    type_specific_ignored: bool,
    inherits_from: Option<Seq<Seq<char>>>,
) -> WalkState {
    let registered = if kind == DefinedKind::Class && inherits_from is Some {
        WalkState { class_records: st.class_records.push((st.scope, name, inherits_from->0)), ..st }
    } else {
        st
    };
    let line = definition_line(env, start, decorators);
    if definition_ignored(env, st, kind, name, line as u32, type_specific_ignored) {
        registered
    } else {
        registered.with_def(
            kind,
            definition_item(env, st, kind, name, start, end, decorators, inherits_from),
        )
    }
}

/// A variable assignment; skipped directly in a class body under
/// `--ignore-class-attributes`.
pub open spec fn define_variable(env: WalkEnv, st: WalkState, name: Seq<char>, start: u32, end: u32) -> WalkState {
    if env.options.ignore_class_attributes && st.in_class_body() {
        st
    } else {
        define(env, st, DefinedKind::Variable, name, start, end, Seq::empty(), spec_ignore_variable(name), None)
    }
}

/// A name stored is a variable definition.
pub open spec fn name_walk(
    env: WalkEnv,
    st: WalkState,
    id: Seq<char>,
    ctx: ExprContext,
    start: u32,
    end: u32,
) -> WalkState {
    if ctx == ExprContext::Store {
        define_variable(env, st, id, start, end)
    } else {
        st
    }
}

/// An attribute stored is an attribute definition (under
/// `--ignore-non-self-attributes` only on `self`).
pub open spec fn attribute_walk(
    env: WalkEnv,
    st: WalkState,
    value: Expr,
    attr: Seq<char>,
    ctx: ExprContext,
    start: u32,
    end: u32,
) -> WalkState {
    if ctx == ExprContext::Store && !(env.options.ignore_non_self_attributes
        && !spec_is_self_attribute_target(value)) {
        define(env, st, DefinedKind::Attribute, attr, start, end, Seq::empty(), false, None)
    } else {
        st
    }
}

/// Each alias is an import definition, under its own name or, without
/// one, under the first component of the imported name.
pub open spec fn aliases_walk(env: WalkEnv, st: WalkState, names: Seq<Alias>) -> WalkState
    decreases names.len(),
{
    if names.len() == 0 {
        st
    } else {
        let before = aliases_walk(env, st, names.drop_last());
        let alias = names.last();
        let first = split_chars_on(alias.name@, '.')[0];
        let ignored = spec_ignore_import(env.file, first);
        match alias.asname {
            Some(a) => define(env, before, DefinedKind::Import, a@, alias.start, alias.end, Seq::empty(), ignored, None),
            None => define(env, before, DefinedKind::Import, first, alias.start, alias.end, Seq::empty(), ignored, None),
        }
    }
}

/// A function or method definition (see `function_definition`).
pub open spec fn function_walk(
    env: WalkEnv,
    st: WalkState,
    name: Seq<char>,
    parameters: Parameters,
    decorators: Seq<Decorator>,
    start: u32,
    end: u32,
) -> WalkState {
    match function_definition(env.cwd, env.file, name, decorators, parameters) {
        None => st,
        Some((kind, ignored)) => define(env, st, kind, name, start, end, decorators, ignored, None),
    }
}

/// Walking an expression.
pub open spec fn expr_walk(env: WalkEnv, st: WalkState, e: Expr) -> WalkState
    decreases e,
{
    match e {
        Expr::Name { id, ctx, start, end } => name_walk(env, st, id@, ctx, start, end),
        Expr::Attribute { value, attr, ctx, start, end } => expr_walk(
            env,
            attribute_walk(env, st, *value, attr@, ctx, start, end),
            *value,
        ),
        Expr::Call { func, args, keywords } => keywords_walk(
            env,
            exprs_walk(env, expr_walk(env, st, *func), args@),
            keywords@,
        ),
        Expr::BinOp { left, right, .. } => expr_walk(env, expr_walk(env, st, *left), *right),
        Expr::BoolOp { values } => exprs_walk(env, st, values@),
        Expr::UnaryOp { operand } => expr_walk(env, st, *operand),
        Expr::Named { target, value } => expr_walk(env, expr_walk(env, st, *target), *value),
        Expr::Lambda { parameters, body } => expr_walk(
            env,
            match parameters {
                Some(p) => parameters_walk(env, st, *p),
                None => st,
            },
            *body,
        ),
        Expr::IfExp { test, body, orelse } => expr_walk(
            env,
            expr_walk(env, expr_walk(env, st, *test), *body),
            *orelse,
        ),
        Expr::Dict { items } => dict_values_walk(env, dict_keys_walk(env, st, items@), items@),
        Expr::SetDisplay { elts } => exprs_walk(env, st, elts@),
        Expr::ListComp { elt, generators } => comprehensions_walk(
            env,
            expr_walk(env, st, *elt),
            generators@,
        ),
        Expr::SetComp { elt, generators } => comprehensions_walk(
            env,
            expr_walk(env, st, *elt),
            generators@,
        ),
        Expr::DictComp { key, value, generators } => comprehensions_walk(
            env,
            expr_walk(
                env,
                match key {
                    Some(k) => expr_walk(env, st, *k),
                    None => st,
                },
                *value,
            ),
            generators@,
        ),
        Expr::Generator { elt, generators } => comprehensions_walk(
            env,
            expr_walk(env, st, *elt),
            generators@,
        ),
        Expr::Await { value } => expr_walk(env, st, *value),
        Expr::Yield { value } => match value {
            Some(v) => expr_walk(env, st, *v),
            None => st,
        },
        Expr::YieldFrom { value } => expr_walk(env, st, *value),
        Expr::Compare { left, comparators } => exprs_walk(env, expr_walk(env, st, *left), comparators@),
        Expr::FString { elements } => elements_walk(env, st, elements@),
        Expr::TString { elements } => elements_walk(env, st, elements@),
        Expr::Subscript { value, slice } => expr_walk(env, expr_walk(env, st, *value), *slice),
        Expr::Starred { value } => expr_walk(env, st, *value),
        Expr::List { elts } => exprs_walk(env, st, elts@),
        Expr::Tuple { elts } => exprs_walk(env, st, elts@),
        Expr::Slice { lower, upper, step } => {
            let a = match lower {
                Some(x) => expr_walk(env, st, *x),
                None => st,
            };
            let b = match upper {
                Some(x) => expr_walk(env, a, *x),
                None => a,
            };
            match step {
                Some(x) => expr_walk(env, b, *x),
                None => b,
            }
        },
        _ => st,
    }
}

/// Walking some expressions in order.
pub open spec fn exprs_walk(env: WalkEnv, st: WalkState, es: Seq<Expr>) -> WalkState
    decreases es,
{
    if es.len() == 0 {
        st
    } else {
        expr_walk(env, exprs_walk(env, st, es.subrange(0, es.len() - 1)), es[es.len() - 1])
    }
}

/// Walking the values of some keyword arguments.
pub open spec fn keywords_walk(env: WalkEnv, st: WalkState, ks: Seq<Keyword>) -> WalkState
    decreases ks,
{
    if ks.len() == 0 {
        st
    } else {
        expr_walk(env, keywords_walk(env, st, ks.subrange(0, ks.len() - 1)), ks[ks.len() - 1].value)
    }
}

/// Walking the keys of a dict display.
pub open spec fn dict_keys_walk(env: WalkEnv, st: WalkState, items: Seq<DictItem>) -> WalkState
    decreases items,
{
    if items.len() == 0 {
        st
    } else {
        let before = dict_keys_walk(env, st, items.subrange(0, items.len() - 1));
        match items[items.len() - 1].key {
            Some(k) => expr_walk(env, before, k),
            None => before,
        }
    }
}

/// Walking the values of a dict display.
pub open spec fn dict_values_walk(env: WalkEnv, st: WalkState, items: Seq<DictItem>) -> WalkState
    decreases items,
{
    if items.len() == 0 {
        st
    } else {
        expr_walk(
            env,
            dict_values_walk(env, st, items.subrange(0, items.len() - 1)),
            items[items.len() - 1].value,
        )
    }
}

/// Walking the clauses of a comprehension: target, iterable, conditions.
pub open spec fn comprehensions_walk(env: WalkEnv, st: WalkState, gens: Seq<Comprehension>) -> WalkState
    decreases gens,
{
    if gens.len() == 0 {
        st
    } else {
        let g = gens[gens.len() - 1];
        exprs_walk(
            env,
            expr_walk(
                env,
                expr_walk(env, comprehensions_walk(env, st, gens.subrange(0, gens.len() - 1)), g.target),
                g.iter,
            ),
            g.ifs@,
        )
    }
}

/// Walking the interpolations of an f-string or t-string.
pub open spec fn elements_walk(env: WalkEnv, st: WalkState, elements: Seq<InterpolatedElement>) -> WalkState
    decreases elements,
{
    if elements.len() == 0 {
        st
    } else {
        element_walk(
            env,
            elements_walk(env, st, elements.subrange(0, elements.len() - 1)),
            elements[elements.len() - 1],
        )
    }
}

/// Walking one interpolation: its expression, then its format specification.
pub open spec fn element_walk(env: WalkEnv, st: WalkState, element: InterpolatedElement) -> WalkState
    decreases element,
{
    match element {
        InterpolatedElement::Interpolation { expression, format_spec } => {
            let after = expr_walk(env, st, *expression);
            match format_spec {
                Some(spec) => elements_walk(env, after, spec@),
                None => after,
            }
        },
        InterpolatedElement::Literal => st,
    }
}

/// Walking a parameter's annotation.
pub open spec fn parameter_walk(env: WalkEnv, st: WalkState, p: Parameter) -> WalkState
    decreases p,
{
    match p.annotation {
        Some(a) => expr_walk(env, st, *a),
        None => st,
    }
}

/// Walking the annotations and defaults of some parameters.
pub open spec fn defaulted_walk(env: WalkEnv, st: WalkState, ps: Seq<ParameterWithDefault>) -> WalkState
    decreases ps,
{
    if ps.len() == 0 {
        st
    } else {
        let p = ps[ps.len() - 1];
        let after = parameter_walk(env, defaulted_walk(env, st, ps.subrange(0, ps.len() - 1)), p.parameter);
        match p.default {
            Some(d) => expr_walk(env, after, *d),
            None => after,
        }
    }
}

/// Walking a parameter list: positional-only, ordinary and keyword-only
/// parameters, then `*args` and `**kwargs`.
pub open spec fn parameters_walk(env: WalkEnv, st: WalkState, p: Parameters) -> WalkState
    decreases p,
{
    let a = defaulted_walk(
        env,
        defaulted_walk(env, defaulted_walk(env, st, p.posonlyargs@), p.args@),
        p.kwonlyargs@,
    );
    let b = match p.vararg {
        Some(v) => parameter_walk(env, a, v),
        None => a,
    };
    match p.kwarg {
        Some(k) => parameter_walk(env, b, k),
        None => b,
    }
}

/// Walking a `match` pattern.
pub open spec fn pattern_walk(env: WalkEnv, st: WalkState, p: Pattern) -> WalkState
    decreases p,
{
    match p {
        Pattern::MatchValue { value } => expr_walk(env, st, value),
        Pattern::MatchSequence { patterns } => patterns_walk(env, st, patterns@),
        Pattern::MatchMapping { keys, patterns } => patterns_walk(env, exprs_walk(env, st, keys@), patterns@),
        Pattern::MatchClass { cls, patterns, keywords } => pattern_keywords_walk(
            env,
            patterns_walk(env, expr_walk(env, st, cls), patterns@),
            keywords@,
        ),
        Pattern::MatchAs { pattern } => match pattern {
            Some(q) => pattern_walk(env, st, *q),
            None => st,
        },
        Pattern::MatchOr { patterns } => patterns_walk(env, st, patterns@),
        _ => st,
    }
}

/// Walking some patterns in order.
pub open spec fn patterns_walk(env: WalkEnv, st: WalkState, ps: Seq<Pattern>) -> WalkState
    decreases ps,
{
    if ps.len() == 0 {
        st
    } else {
        pattern_walk(env, patterns_walk(env, st, ps.subrange(0, ps.len() - 1)), ps[ps.len() - 1])
    }
}

/// Walking the sub-patterns of a class pattern's keywords.
pub open spec fn pattern_keywords_walk(env: WalkEnv, st: WalkState, ks: Seq<PatternKeyword>) -> WalkState
    decreases ks,
{
    if ks.len() == 0 {
        st
    } else {
        pattern_walk(env, pattern_keywords_walk(env, st, ks.subrange(0, ks.len() - 1)), ks[ks.len() - 1].pattern)
    }
}

/// Walking the expressions of some decorators.
pub open spec fn decorators_walk(env: WalkEnv, st: WalkState, ds: Seq<Decorator>) -> WalkState
    decreases ds,
{
    if ds.len() == 0 {
        st
    } else {
        expr_walk(env, decorators_walk(env, st, ds.subrange(0, ds.len() - 1)), ds[ds.len() - 1].expression)
    }
}

/// A class's inherits-from chain matches `--ignore-definitions-if-inherits-from`
/// (with its name matching `--ignore-definitions`, this suppresses the class
/// and everything in it).
pub open spec fn class_ignored(env: WalkEnv, name: Seq<char>, inherits_from: Option<Seq<Seq<char>>>) -> bool {
    spec_match_any(name, string_views(env.options.ignore_definitions@), true) || match inherits_from {
        Some(c) => spec_match_many(c, string_views(env.options.ignore_definitions_if_inherits_from@), true),
        None => false,
    }
}

/// A class's body is ignored: its chain matches
/// `--ignore-bodies-if-inherits-from`.
pub open spec fn body_ignored(env: WalkEnv, inherits_from: Option<Seq<Seq<char>>>) -> bool {
    match inherits_from {
        Some(c) => spec_match_many(c, string_views(env.options.ignore_bodies_if_inherits_from@), true),
        None => false,
    }
}

/// Walking a statement.
pub open spec fn stmt_walk(env: WalkEnv, st: WalkState, s: Stmt) -> WalkState
    decreases s,
{
    match s {
        Stmt::ClassDef { name, bases, keywords, decorator_list, body, start, end } => {
            let inherits_from = spec_inherits_from(st.class_records, st.scope, bases@);
            let off_after_class = class_ignored(env, name@, inherits_from) && !st.ignoring;
            let st1 = if off_after_class {
                st.with_ignoring(true)
            } else {
                st
            };
            let st2 = define(
                env,
                st1,
                DefinedKind::Class,
                name@,
                start,
                end,
                decorator_list@,
                spec_ignore_class(env.cwd, env.file, name@),
                inherits_from,
            ).enter(name@, ScopeKind::Class);
            let off_after_body = !st2.ignoring && body_ignored(env, inherits_from);
            let st3 = if off_after_body {
                st2.with_ignoring(true)
            } else {
                st2
            };
            let st4 = stmts_walk(
                env,
                keywords_walk(env, exprs_walk(env, decorators_walk(env, st3, decorator_list@), bases@), keywords@),
                body@,
            );
            let st5 = if off_after_class || off_after_body {
                st4.with_ignoring(false)
            } else {
                st4
            };
            st5.leave()
        },
        Stmt::FunctionDef { name, parameters, decorator_list, return_annotation, body, start, end } => {
            let st1 = function_walk(env, st, name@, *parameters, decorator_list@, start, end).enter(
                name@,
                ScopeKind::Function,
            );
            let st2 = parameters_walk(env, decorators_walk(env, st1, decorator_list@), *parameters);
            let st3 = match return_annotation {
                Some(r) => expr_walk(env, st2, *r),
                None => st2,
            };
            stmts_walk(env, st3, body@).leave()
        },
        Stmt::Import { names } => aliases_walk(env, st, names@),
        Stmt::ImportFrom { module, names } => if (match module {
            Some(m) => m@ == "__future__"@,
            None => false,
        }) {
            st
        } else {
            aliases_walk(env, st, names@)
        },
        Stmt::Assign { targets, value } => expr_walk(env, exprs_walk(env, st, targets@), *value),
        Stmt::AnnAssign { target, annotation, value } => {
            let after = expr_walk(env, expr_walk(env, st, *target), *annotation);
            match value {
                Some(v) => expr_walk(env, after, *v),
                None => after,
            }
        },
        Stmt::AugAssign { target, value } => expr_walk(env, expr_walk(env, st, *target), *value),
        Stmt::Return { value } => match value {
            Some(v) => expr_walk(env, st, *v),
            None => st,
        },
        Stmt::Delete { targets } => exprs_walk(env, st, targets@),
        Stmt::For { target, iter, body, orelse } => stmts_walk(
            env,
            stmts_walk(env, expr_walk(env, expr_walk(env, st, *target), *iter), body@),
            orelse@,
        ),
        Stmt::While { test, body, orelse } => stmts_walk(
            env,
            stmts_walk(env, expr_walk(env, st, *test), body@),
            orelse@,
        ),
        Stmt::If { test, body, elif_else_clauses } => clauses_walk(
            env,
            stmts_walk(env, expr_walk(env, st, *test), body@),
            elif_else_clauses@,
        ),
        Stmt::With { items, body } => stmts_walk(env, with_items_walk(env, st, items@), body@),
        Stmt::Match { subject, cases } => cases_walk(env, expr_walk(env, st, *subject), cases@),
        Stmt::Raise { exc, cause } => {
            let after = match exc {
                Some(x) => expr_walk(env, st, *x),
                None => st,
            };
            match cause {
                Some(x) => expr_walk(env, after, *x),
                None => after,
            }
        },
        Stmt::Try { body, handlers, orelse, finalbody } => stmts_walk(
            env,
            stmts_walk(env, handlers_walk(env, stmts_walk(env, st, body@), handlers@), orelse@),
            finalbody@,
        ),
        Stmt::Assert { test, msg } => {
            let after = expr_walk(env, st, *test);
            match msg {
                Some(m) => expr_walk(env, after, *m),
                None => after,
            }
        },
        Stmt::ExprStmt { value } => expr_walk(env, st, *value),
        Stmt::TypeAlias { value } => expr_walk(env, st, *value),
        _ => st,
    }
}

/// Walking some statements in order.
pub open spec fn stmts_walk(env: WalkEnv, st: WalkState, ss: Seq<Stmt>) -> WalkState
    decreases ss,
{
    if ss.len() == 0 {
        st
    } else {
        stmt_walk(env, stmts_walk(env, st, ss.subrange(0, ss.len() - 1)), ss[ss.len() - 1])
    }
}

/// Walking the `elif`/`else` clauses of an `if`.
pub open spec fn clauses_walk(env: WalkEnv, st: WalkState, cs: Seq<ElifElseClause>) -> WalkState
    decreases cs,
{
    if cs.len() == 0 {
        st
    } else {
        let c = cs[cs.len() - 1];
        let before = clauses_walk(env, st, cs.subrange(0, cs.len() - 1));
        stmts_walk(
            env,
            match c.test {
                Some(t) => expr_walk(env, before, t),
                None => before,
            },
            c.body@,
        )
    }
}

/// Walking the items of a `with`.
pub open spec fn with_items_walk(env: WalkEnv, st: WalkState, items: Seq<WithItem>) -> WalkState
    decreases items,
{
    if items.len() == 0 {
        st
    } else {
        let item = items[items.len() - 1];
        let after = expr_walk(env, with_items_walk(env, st, items.subrange(0, items.len() - 1)), item.context_expr);
        match item.optional_vars {
            Some(v) => expr_walk(env, after, v),
            None => after,
        }
    }
}

/// Walking the cases of a `match`.
pub open spec fn cases_walk(env: WalkEnv, st: WalkState, cs: Seq<MatchCase>) -> WalkState
    decreases cs,
{
    if cs.len() == 0 {
        st
    } else {
        let c = cs[cs.len() - 1];
        let after = pattern_walk(env, cases_walk(env, st, cs.subrange(0, cs.len() - 1)), c.pattern);
        stmts_walk(
            env,
            match c.guard {
                Some(g) => expr_walk(env, after, g),
                None => after,
            },
            c.body@,
        )
    }
}

/// Walking the `except` clauses of a `try`.
pub open spec fn handlers_walk(env: WalkEnv, st: WalkState, hs: Seq<ExceptHandler>) -> WalkState
    decreases hs,
{
    if hs.len() == 0 {
        st
    } else {
        let h = hs[hs.len() - 1];
        let before = handlers_walk(env, st, hs.subrange(0, hs.len() - 1));
        stmts_walk(
            env,
            match h.type_ {
                Some(t) => expr_walk(env, before, t),
                None => before,
            },
            h.body@,
        )
    }
}

} // verus!
