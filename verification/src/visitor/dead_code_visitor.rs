//! Walks the syntax trees of the analysed files, recording every definition
//! that may be reported and every name that is used, then reports the
//! definitions whose names are never used.
//!
//! Which names are used does not depend on any option: it is the union of
//! `stmts_uses` over the files (see `uses`). Options, `# noqa` comments,
//! tach interfaces and the ignore rules only decide which definitions are
//! recorded.

use vstd::prelude::*;

use crate::actions::parse_tach_config::TachIndex;
use crate::constants::UnusedCodeType;
use crate::data_types::{Args, Part};
use crate::utils::fnmatch::{match_any, match_many, spec_match_many};
use crate::utils::line_index::{lemma_line_starts_len, line_starts_of, LineIndex};
use crate::utils::name_set::{char_lt, chars_less, NameSet};
use crate::utils::path_order::{
    components_lt, lemma_components_lt_irreflexive, lemma_components_lt_total,
    lemma_components_lt_transitive, path_compare, path_eq, path_lt, ranked_components,
};
use crate::utils::sorting::{
    insert_sorted, is_total_preorder, lemma_insert_sorted_split, lemma_stable_sort_contains,
    lemma_stable_sort_sorted, stable_sort,
};
use crate::utils::nested_scopes::{spec_get_inherits_from, NestedScope, ScopeRecord};
use crate::utils::text::{copy_strings, join_strings, lowercase_result, string_views, to_lowercase};
use crate::visitor::code_item::{path_as_posix, CodeItem, CodeItemView};
use crate::utils::regex_support::{regex_group_captures, regex_replace_all};
use crate::utils::text::{
    chars_end_with, chars_start_with, ends_with_chars, starts_with_chars, trim, spec_trim,
    utf8_lossy, utf8_lossy_result, char_views, chars_of, lemma_split_chars_on_nonempty,
    split_chars, split_chars_on, str_eq, string_from_chars,
};
use crate::visitor::ignore::{
    file_name, spec_file_name, assigns_special_variable_all, ignore_class,
    attrs_field_hook_patterns, ignore_attrs_field_hook, ignore_function, ignore_method,
    ignore_override, ignore_pytest_fixture, override_decorator_names, spec_ignore_function,
    spec_ignore_method, spec_ignore_pytest_fixture, ignore_import, ignore_variable,
    is_self_attribute_target, is_usefixtures_decorator_name,
};
use crate::visitor::noqa::{ignore_line, noqa_on_line, parse_noqa, NoqaLines};
use crate::visitor::python_ast::{
    ElifElseClause, ExceptHandler, MatchCase, Stmt, WithItem, Alias, Comprehension, Decorator,
    DictItem, Expr, ExprContext, InterpolatedElement, Keyword, Operator, Parameter,
    ParameterWithDefault, Parameters, Pattern, PatternKeyword,
};
use crate::visitor::walk::{
    aliases_walk, attribute_walk, define, define_variable, definition_item, definition_line,
    function_walk, name_walk, WalkEnv, WalkState, expr_walk, element_walk, parameter_walk,
    parameters_walk, exprs_walk, keywords_walk, comprehensions_walk, elements_walk,
    defaulted_walk, patterns_walk, decorators_walk, stmts_walk, clauses_walk, with_items_walk,
    cases_walk, handlers_walk, pattern_walk, pattern_keywords_walk, dict_keys_walk,
    dict_values_walk, stmt_walk, class_ignored, body_ignored,
};
use crate::visitor::uses::{
    all_listing_uses, cases_uses, clauses_uses, decorators_expr_uses, handlers_uses, stmt_uses,
    stmts_uses, with_items_uses, decorators_fixture_uses, pattern_keywords_uses, pattern_uses,
    patterns_uses, comprehensions_uses, defaulted_uses, dict_items_uses, element_uses,
    elements_uses, expr_uses, exprs_uses, keywords_uses, parameter_uses, parameters_uses,
    aliases_uses, as_str_constant, binop_uses, bracket_regex, call_uses, fields_from,
    format_uses, has_locals_kwargs, is_identifier_like, is_locals_call, name_uses,
    parse_format_fields, percent_regex, percent_uses, spec_is_identifier_like,
    spec_is_locals_call, str_constant, string_arg_uses, string_constants, string_views_of,
    usefixtures_uses, without_indexes,
};
use crate::visitor::utils::{get_decorator_name, spec_decorator_name};

verus! {

/// The kind of scope a definition sits in.
#[derive(Debug, Clone, Copy, PartialEq, Eq, Structural)]
pub enum ScopeKind {
    Class,
    Function,
}

/// The kind of a recorded definition.
#[derive(Debug, Clone, Copy, PartialEq, Eq, Structural)]
pub enum DefinedKind {
    Attribute,
    Class,
    Function,
    Import,
    Method,
    Property,
    Variable,
}

/// The report type of each kind of definition.
pub open spec fn kind_type(kind: DefinedKind) -> UnusedCodeType {
    match kind {
        DefinedKind::Attribute => UnusedCodeType::Attribute,
        DefinedKind::Class => UnusedCodeType::Class,
        DefinedKind::Function => UnusedCodeType::Function,
        DefinedKind::Import => UnusedCodeType::Import,
        DefinedKind::Method => UnusedCodeType::Method,
        DefinedKind::Property => UnusedCodeType::Property,
        DefinedKind::Variable => UnusedCodeType::Variable,
    }
}

impl DefinedKind {
    pub fn unused_code_type(self) -> (t: UnusedCodeType)
        ensures
            t == kind_type(self),
    {
        match self {
            DefinedKind::Attribute => UnusedCodeType::Attribute,
            DefinedKind::Class => UnusedCodeType::Class,
            DefinedKind::Function => UnusedCodeType::Function,
            DefinedKind::Import => UnusedCodeType::Import,
            DefinedKind::Method => UnusedCodeType::Method,
            DefinedKind::Property => UnusedCodeType::Property,
            DefinedKind::Variable => UnusedCodeType::Variable,
        }
    }
}

/// ASCII whitespace as `u8::is_ascii_whitespace` has it.
pub open spec fn is_ascii_ws(b: u8) -> bool {
    b == 32u8 || b == 9u8 || b == 10u8 || b == 12u8 || b == 13u8
}

/// The end of the line holding position `i`: the next newline, or the end.
pub open spec fn line_end(b: Seq<u8>, i: int) -> int
    decreases b.len() - i,
{
    if i < 0 || i >= b.len() || b[i] == 10u8 {
        if i < 0 {
            0
        } else if i > b.len() {
            b.len() as int
        } else {
            i
        }
    } else {
        line_end(b, i + 1)
    }
}

proof fn lemma_line_end_bounds(b: Seq<u8>, i: int)
    requires
        0 <= i <= b.len(),
    ensures
        i <= line_end(b, i) <= b.len(),
        line_end(b, i) < b.len() ==> b[line_end(b, i)] == 10u8,
    decreases b.len() - i,
{
    if i < b.len() && b[i] != 10u8 {
        lemma_line_end_bounds(b, i + 1);
    }
}

/// The first position from `i` on that is not whitespace, a line
/// continuation or part of a comment: where a decorated definition's
/// keyword stands after its last decorator.
pub open spec fn keyword_offset(b: Seq<u8>, i: int) -> int
    decreases b.len() - i,
{
    if i < 0 || i >= b.len() {
        i
    } else if b[i] == 35u8 {
        let e = line_end(b, i);
        if i < e <= b.len() {
            keyword_offset(b, e)
        } else {
            i
        }
    } else if b[i] == 92u8 || is_ascii_ws(b[i]) {
        keyword_offset(b, i + 1)
    } else {
        i
    }
}

proof fn lemma_keyword_offset_bounds(b: Seq<u8>, i: int)
    requires
        0 <= i,
    ensures
        i <= keyword_offset(b, i),
        i <= b.len() ==> keyword_offset(b, i) <= b.len(),
    decreases b.len() - i,
{
    if 0 <= i < b.len() {
        if b[i] == 35u8 {
            lemma_line_end_bounds(b, i);
            if line_end(b, i) > i {
                lemma_keyword_offset_bounds(b, line_end(b, i));
            }
        } else if b[i] == 92u8 || is_ascii_ws(b[i]) {
            lemma_keyword_offset_bounds(b, i + 1);
        }
    }
}

/// Where a definition is reported: at its `def`/`class` keyword, which for
/// a decorated definition follows the last decorator.
pub open spec fn definition_start(source: Seq<u8>, start: u32, decorators: Seq<Decorator>) -> int {
    if decorators.len() == 0 {
        start as int
    } else {
        keyword_offset(source, decorators.last().end as int)
    }
}

/// The plain names among a class's bases, in order.
pub open spec fn base_names(bases: Seq<Expr>) -> Seq<Seq<char>>
    decreases bases.len(),
{
    if bases.len() == 0 {
        Seq::empty()
    } else {
        let rest = base_names(bases.drop_last());
        match bases.last() {
            Expr::Name { id, .. } => rest.push(id@),
            _ => rest,
        }
    }
}

/// The registered chains of the named bases, one after the other.
pub open spec fn inherited_chains(
    records: Seq<ScopeRecord>,
    scope: Seq<Seq<char>>,
    names: Seq<Seq<char>>,
) -> Seq<Seq<char>>
    decreases names.len(),
{
    if names.len() == 0 {
        Seq::empty()
    } else {
        inherited_chains(records, scope, names.drop_last()) + match spec_get_inherits_from(
            records,
            scope,
            names.last(),
        ) {
            Some(c) => c,
            None => Seq::empty(),
        }
    }
}

/// A class's flattened inherits-from chain: its plain-name bases, then the
/// chains registered for them; none for a class without bases.
pub open spec fn spec_inherits_from(
    records: Seq<ScopeRecord>,
    scope: Seq<Seq<char>>,
    bases: Seq<Expr>,
) -> Option<Seq<Seq<char>>> {
    if bases.len() == 0 {
        None
    } else {
        Some(base_names(bases) + inherited_chains(records, scope, base_names(bases)))
    }
}

/// How a function definition is recorded (its kind, and whether its kind's
/// own rule ignores it), or `None` when it is not recorded at all: pytest
/// fixtures in conftest.py or test files, `@override` methods and `attrs`
/// field hooks.
pub open spec fn function_definition(
    cwd: Seq<char>,
    filename: Seq<char>,
    name: Seq<char>,
    decorators: Seq<Decorator>,
    parameters: Parameters,
) -> Option<(DefinedKind, bool)> {
    let names = decorators.map_values(|d: Decorator| spec_decorator_name(d.expression));
    if spec_ignore_pytest_fixture(cwd, filename, names) || spec_match_many(
        names,
        override_decorator_names(),
        true,
    ) || spec_match_many(names, attrs_field_hook_patterns(), true) {
        None
    } else if names.contains("@property"@) {
        Some((DefinedKind::Property, false))
    } else if names.contains("@staticmethod"@) || names.contains("@classmethod"@) || (
    parameters.args@.len() > 0 && parameters.args@[0].parameter.name@ == "self"@) {
        Some((DefinedKind::Method, spec_ignore_method(cwd, filename, name)))
    } else {
        Some((DefinedKind::Function, spec_ignore_function(cwd, filename, name)))
    }
}

/// The values of some items.
pub open spec fn item_views(items: Seq<CodeItem>) -> Seq<CodeItemView> {
    items.map_values(|i: CodeItem| i@)
}

/// Items ordered by their names, lowercased.
pub open spec fn name_order() -> spec_fn(CodeItemView, CodeItemView) -> bool {
    |a: CodeItemView, b: CodeItemView| !char_lt(lowercase_result(b.name), lowercase_result(a.name))
}

/// The line of an item, 0 when it has none.
pub open spec fn line_or_zero(v: CodeItemView) -> u32 {
    match v.name_line {
        Some(l) => l,
        None => 0,
    }
}

/// `a` is reported before `b`: by file (in path order), then by line.
pub open spec fn position_before(a: CodeItemView, b: CodeItemView) -> bool {
    path_lt(a.filename, b.filename) || (path_eq(a.filename, b.filename) && line_or_zero(a)
        < line_or_zero(b))
}

/// Items ordered by file, then line.
pub open spec fn position_order() -> spec_fn(CodeItemView, CodeItemView) -> bool {
    |a: CodeItemView, b: CodeItemView| !position_before(b, a)
}

/// One of the two report orders.
pub open spec fn item_order(by_position: bool) -> spec_fn(CodeItemView, CodeItemView) -> bool {
    if by_position {
        position_order()
    } else {
        name_order()
    }
}

/// An item whose name is not used.
pub open spec fn not_used_in(used: Set<Seq<char>>) -> spec_fn(CodeItemView) -> bool {
    |v: CodeItemView| !used.contains(v.name)
}

/// The items whose names are not used, ordered by name.
pub open spec fn unused_among(items: Seq<CodeItem>, used: Set<Seq<char>>) -> Seq<CodeItemView> {
    stable_sort(item_views(items).filter(not_used_in(used)), name_order())
}

/// The position of the last `.` in a name.
pub open spec fn last_dot(s: Seq<char>) -> Option<int>
    decreases s.len(),
{
    if s.len() == 0 {
        None
    } else if s.last() == '.' {
        Some(s.len() - 1)
    } else {
        last_dot(s.drop_last())
    }
}

/// A file's module name: its name up to the last `.`.
pub open spec fn module_name_of(filename: Seq<char>) -> Seq<char> {
    match last_dot(filename) {
        Some(k) => filename.take(k),
        None => filename,
    }
}

/// `__init__.py`-like files (`__*__.py`) are analysed even when empty.
pub open spec fn is_dunder_file(filename: Seq<char>) -> bool {
    chars_start_with(filename, seq!['_', '_']) && chars_end_with(filename, "__.py"@)
}

/// The name of the file at `path` (the path itself if it has none).
pub open spec fn base_name(path: Seq<char>) -> Seq<char> {
    match spec_file_name(path) {
        Some(n) => n,
        None => path,
    }
}

/// The file holds something besides whitespace, or is a `__*__.py` file.
pub open spec fn is_analysed(path: Seq<char>, content: Seq<u8>) -> bool {
    spec_trim(utf8_lossy_result(content)).len() > 0 || is_dunder_file(base_name(path))
}

/// Collects definitions and name uses over the analysed files.
pub struct DeadCodeVisitor<'a> {
    args: &'a Args,
    tach_index: &'a TachIndex,
    cwd: String,
    defined_attrs: Vec<CodeItem>,
    defined_classes: Vec<CodeItem>,
    defined_funcs: Vec<CodeItem>,
    defined_imports: Vec<CodeItem>,
    defined_methods: Vec<CodeItem>,
    defined_props: Vec<CodeItem>,
    defined_vars: Vec<CodeItem>,
    /// Files that hold nothing but whitespace.
    pub unused_file: Vec<CodeItem>,
    /// Files that could not be parsed and were therefore skipped entirely.
    pub parse_failures: Vec<String>,
    used_names: NameSet,
    filename: String,
    scope_parts: Vec<String>,
    scope_kinds: Vec<ScopeKind>,
    should_ignore_new_definitions: bool,
    noqa_lines: NoqaLines,
    scopes: NestedScope,
    line_index: LineIndex,
    source: Vec<u8>,
}

impl<'a> DeadCodeVisitor<'a> {
    /// The options of the run.
    pub closed spec fn options(&self) -> Args {
        *self.args
    }

    /// The tach projects of the run.
    pub closed spec fn tach(&self) -> TachIndex {
        *self.tach_index
    }

    /// The working directory that relative file names are resolved against.
    pub closed spec fn working_dir(&self) -> Seq<char> {
        self.cwd@
    }

    /// The names used so far.
    pub closed spec fn used(&self) -> Set<Seq<char>> {
        self.used_names.set()
    }

    /// The definitions of one kind recorded so far, in order.
    pub closed spec fn defined(&self, kind: DefinedKind) -> Seq<CodeItem> {
        match kind {
            DefinedKind::Attribute => self.defined_attrs@,
            DefinedKind::Class => self.defined_classes@,
            DefinedKind::Function => self.defined_funcs@,
            DefinedKind::Import => self.defined_imports@,
            DefinedKind::Method => self.defined_methods@,
            DefinedKind::Property => self.defined_props@,
            DefinedKind::Variable => self.defined_vars@,
        }
    }

    /// The file being visited.
    pub closed spec fn current_file(&self) -> Seq<char> {
        self.filename@
    }

    /// The source text of the file being visited.
    pub closed spec fn source_bytes(&self) -> Seq<u8> {
        self.source@
    }

    /// The names of the enclosing scopes (the module first).
    pub closed spec fn scope_path(&self) -> Seq<Seq<char>> {
        string_views(self.scope_parts@)
    }

    /// The kinds of the enclosing class and function scopes.
    pub closed spec fn scope_kind_stack(&self) -> Seq<ScopeKind> {
        self.scope_kinds@
    }

    /// New definitions are being suppressed (inside an ignored class).
    pub closed spec fn ignoring(&self) -> bool {
        self.should_ignore_new_definitions
    }

    /// The classes registered with their inherits-from chains.
    pub closed spec fn class_records(&self) -> Seq<ScopeRecord> {
        self.scopes.records()
    }

    /// The line starts of the file being visited.
    pub closed spec fn line_starts(&self) -> Seq<u32> {
        self.line_index.starts()
    }

    /// Line `line` of the file being visited suppresses `code`.
    pub closed spec fn noqa_suppresses(&self, code: Seq<char>, line: u32) -> bool {
        self.noqa_lines.suppresses(code, line)
    }

    /// The `# noqa` comments of the file being visited.
    pub closed spec fn noqa(&self) -> NoqaLines {
        self.noqa_lines
    }

    /// What stays fixed while the current file is walked.
    pub open spec fn env(&self) -> WalkEnv {
        WalkEnv {
            options: self.options(),
            tach: self.tach(),
            cwd: self.working_dir(),
            file: self.current_file(),
            source: self.source_bytes(),
            starts: self.line_starts(),
            noqa: self.noqa(),
        }
    }

    /// What walking changes besides the used names.
    pub open spec fn walk_state(&self) -> WalkState {
        WalkState {
            attrs: item_views(self.defined(DefinedKind::Attribute)),
            classes: item_views(self.defined(DefinedKind::Class)),
            funcs: item_views(self.defined(DefinedKind::Function)),
            imports: item_views(self.defined(DefinedKind::Import)),
            methods: item_views(self.defined(DefinedKind::Method)),
            props: item_views(self.defined(DefinedKind::Property)),
            vars: item_views(self.defined(DefinedKind::Variable)),
            class_records: self.class_records(),
            scope: self.scope_path(),
            kinds: self.scope_kind_stack(),
            ignoring: self.ignoring(),
        }
    }

    /// The empty files found so far.
    pub closed spec fn empty_files(&self) -> Seq<CodeItem> {
        self.unused_file@
    }

    /// The files that failed to parse so far.
    pub closed spec fn failed_files(&self) -> Seq<Seq<char>> {
        string_views(self.parse_failures@)
    }

    /// The line index matches the source, whose offsets fit in `u32`.
    pub closed spec fn wf(&self) -> bool {
        &&& self.line_index.wf()
        &&& self.line_index.starts() == line_starts_of(self.source@)
        &&& self.source@.len() < u32::MAX
    }

    /// Nothing changed but the used names, the recorded definitions (which
    /// only grew), the class registrations (which only grew) and the scope
    /// being walked.
    pub open spec fn progressed_from(&self, before: &Self) -> bool {
        &&& self.wf()
        &&& self.options() == before.options()
        &&& self.tach() == before.tach()
        &&& self.working_dir() == before.working_dir()
        &&& self.current_file() == before.current_file()
        &&& self.source_bytes() == before.source_bytes()
        &&& self.line_starts() == before.line_starts()
        &&& (forall|c: Seq<char>, n: u32| self.noqa_suppresses(c, n) == before.noqa_suppresses(c, n))
        &&& self.noqa() == before.noqa()
        &&& self.empty_files() == before.empty_files()
        &&& self.failed_files() == before.failed_files()
        &&& before.class_records().is_prefix_of(self.class_records())
        &&& forall|k: DefinedKind| before.defined(k).is_prefix_of(#[trigger] self.defined(k))
    }

    /// Walking code changed nothing but the used names, the recorded
    /// definitions (which only grew) and the class registrations (which only
    /// grew): the scope and the suppression of definitions are as before.
    pub open spec fn walked_from(&self, before: &Self) -> bool {
        &&& self.progressed_from(before)
        &&& self.scope_path() == before.scope_path()
        &&& self.scope_kind_stack() == before.scope_kind_stack()
        &&& self.ignoring() == before.ignoring()
    }

    /// Going from `before` to `self` recorded the definition (or not, if
    /// ignored) exactly as `push_definition` does, and registered a class's
    /// inherits-from chain (see `define`).
    pub open spec fn records_definition(
        &self,
        before: &Self,
        kind: DefinedKind,
        name: Seq<char>,
        start: u32,
        end: u32,
        decorators: Seq<Decorator>,
        type_specific_ignored: bool,
        inherits_from: Option<Seq<Seq<char>>>,
    ) -> bool {
        self.walk_state() == define(
            before.env(),
            before.walk_state(),
            kind,
            name,
            start,
            end,
            decorators,
            type_specific_ignored,
            inherits_from,
        )
    }

    /// Records that `name` is used.
    fn add_used_name(&mut self, name: &str)
        requires
            old(self).wf(),
        ensures
            final(self).walked_from(old(self)),
            final(self).walk_state() == old(self).walk_state(),
            final(self).used() == old(self).used().insert(name@),
            forall|k: DefinedKind| final(self).defined(k) == old(self).defined(k),
            final(self).class_records() == old(self).class_records(),
    {
        self.used_names.insert(name);
    }

    fn is_directly_in_class_body(&self) -> (r: bool)
        ensures
            r == (self.scope_kinds@.len() > 0 && self.scope_kinds@.last() == ScopeKind::Class),
    {
        self.scope_kinds.len() > 0 && self.scope_kinds[self.scope_kinds.len() - 1] == ScopeKind::Class
    }

    /// Where a definition's keyword stands: after its last decorator, past
    /// whitespace, comments and line continuations.
    fn definition_keyword_start(&self, node_start: u32, decorators: &[Decorator]) -> (r: u32)
        requires
            self.wf(),
        ensures
            r == definition_start(self.source_bytes(), node_start, decorators@),
    {
        if decorators.len() == 0 {
            return node_start;
        }
        let bytes = self.source.as_slice();
        let ghost b = bytes@;
        let mut offset: usize = decorators[decorators.len() - 1].end as usize;
        proof {
            lemma_keyword_offset_bounds(b, offset as int);
        }
        let mut done = false;
        while offset < bytes.len() && !done
            invariant
                b == bytes@,
                b == self.source_bytes(),
                b.len() < u32::MAX,
                offset <= u32::MAX,
                offset <= keyword_offset(b, offset as int),
                keyword_offset(b, decorators@.last().end as int) == keyword_offset(b, offset as int),
                done ==> keyword_offset(b, offset as int) == offset,
            decreases bytes.len() - offset, (if done { 0int } else { 1int }),
        {
            let c = bytes[offset];
            if c == 35u8 {
                let ghost from = offset as int;
                while offset < bytes.len() && bytes[offset] != 10u8
                    invariant
                        b == bytes@,
                        from <= offset <= b.len(),
                        line_end(b, from) == line_end(b, offset as int),
                    decreases bytes.len() - offset,
                {
                    offset = offset + 1;
                }
                proof {
                    lemma_line_end_bounds(b, from);
                    lemma_keyword_offset_bounds(b, offset as int);
                }
                assert(offset > from);
            } else if c == 92u8 || c == 32u8 || c == 9u8 || c == 10u8 || c == 12u8 || c == 13u8 {
                offset = offset + 1;
                proof {
                    lemma_keyword_offset_bounds(b, offset as int);
                }
            } else {
                done = true;
            }
        }
        offset as u32
    }

    /// Records a definition unless one of the ignore rules applies; a
    /// class's inherits-from chain is registered either way, so that a later
    /// subclass still resolves it.
    fn push_definition(
        &mut self,
        kind: DefinedKind,
        name: &str,
        start: u32,
        end: u32,
        decorator_list: &[Decorator],
        type_specific_ignored: bool,
        inherits_from: Option<Vec<String>>,
    )
        requires
            old(self).wf(),
        ensures
            final(self).walked_from(old(self)),
            final(self).used() == old(self).used(),
            final(self).records_definition(
                old(self),
                kind,
                name@,
                start,
                end,
                decorator_list@,
                type_specific_ignored,
                match inherits_from {
                    Some(c) => Some(string_views(c@)),
                    None => None,
                },
            ),
    {
        proof {
            lemma_line_starts_len(self.source@);
        }
        let ghost env = old(self).env();
        let ghost st = old(self).walk_state();
        let ghost chain_view: Option<Seq<Seq<char>>> = if inherits_from is Some {
            Some(string_views(inherits_from->0@))
        } else {
            None
        };
        let type_ = kind.unused_code_type();
        let error_code = type_.error_code();
        let at = self.definition_keyword_start(start, decorator_list);
        let (name_line, name_col) = self.line_index.line_col(at);
        let first_line = if decorator_list.len() > 0 {
            self.line_index.line_col(decorator_list[0].start).0
        } else {
            name_line
        };
        let (last_line, end_col) = self.line_index.line_col(end);
        let posix = path_as_posix(self.filename.as_str());
        let class_name: Option<&str> = if self.is_directly_in_class_body() && self.scope_parts.len() > 0 {
            Some(self.scope_parts[self.scope_parts.len() - 1].as_str())
        } else {
            None
        };
        assert(match class_name {
            None => None,
            Some(c) => Some(c@),
        } == st.enclosing_class());
        let ignored = type_specific_ignored || match_any(name, self.args.ignore_names.as_slice(), true)
            || match_any(posix.as_str(), self.args.ignore_names_in_files.as_slice(), true)
            || self.should_ignore_new_definitions || ignore_line(
            &self.noqa_lines,
            name_line as u32,
            error_code,
        ) || self.tach_index.is_exposed(self.cwd.as_str(), self.filename.as_str(), class_name, name);
        assert(name_line == definition_line(env, start, decorator_list@));
        assert(ignored == crate::visitor::walk::definition_ignored(
            env,
            st,
            kind,
            name@,
            name_line as u32,
            type_specific_ignored,
        ));
        let ghost registered = if kind == DefinedKind::Class && chain_view is Some {
            WalkState { class_records: st.class_records.push((st.scope, name@, chain_view->0)), ..st }
        } else {
            st
        };
        if kind == DefinedKind::Class {
            if let Some(chain) = &inherits_from {
                let copy = copy_strings(chain);
                self.scopes.add_class(self.scope_parts.as_slice(), name, copy);
            }
        }
        assert(self.walk_state() =~= registered);
        if ignored {
            return;
        }
        let scope_string = if self.scope_parts.len() == 0 {
            None
        } else {
            let dot = vec!['.'];
            assert(dot@ =~= seq!['.']);
            Some(join_strings(self.scope_parts.as_slice(), dot.as_slice()))
        };
        let mut parts: Vec<Part> = Vec::new();
        parts.push(Part::new(first_line as u32, last_line as u32, name_col as u32, end_col as u32));
        let item = CodeItem::new(
            name.to_owned(),
            type_,
            self.filename.clone(),
            parts,
            scope_string,
            inherits_from,
            Some(name_line as u32),
            Some(name_col as u32),
            String::new(),
        );
        assert(item@ == definition_item(env, st, kind, name@, start, end, decorator_list@, chain_view));
        let ghost old_lists = self.defined(kind);
        match kind {
            DefinedKind::Attribute => self.defined_attrs.push(item),
            DefinedKind::Class => self.defined_classes.push(item),
            DefinedKind::Function => self.defined_funcs.push(item),
            DefinedKind::Import => self.defined_imports.push(item),
            DefinedKind::Method => self.defined_methods.push(item),
            DefinedKind::Property => self.defined_props.push(item),
            DefinedKind::Variable => self.defined_vars.push(item),
        }
        assert(self.defined(kind).drop_last() =~= old_lists);
        assert(item_views(self.defined(kind)) =~= item_views(old_lists).push(item@));
        assert(self.walk_state() =~= registered.with_def(kind, item@));
    }

    /// A variable assignment; skipped directly in a class body under
    /// `--ignore-class-attributes`.
    fn define_variable(&mut self, name: &str, start: u32, end: u32)
        requires
            old(self).wf(),
        ensures
            final(self).walked_from(old(self)),
            final(self).walk_state() == define_variable(old(self).env(), old(self).walk_state(), name@, start, end),
            final(self).used() == old(self).used(),
    {
        if self.args.ignore_class_attributes && self.is_directly_in_class_body() {
            return;
        }
        let ignored = ignore_variable(name);
        let none: Vec<Decorator> = Vec::new();
        assert(none@ =~= Seq::<Decorator>::empty());
        self.push_definition(DefinedKind::Variable, name, start, end, none.as_slice(), ignored, None);
    }

    /// The string arguments of a `usefixtures` mark name fixtures in use.
    fn track_usefixtures_mark(&mut self, decorator: &Expr)
        requires
            old(self).wf(),
        ensures
            final(self).walked_from(old(self)),
            final(self).walk_state() == old(self).walk_state(),
            final(self).used() == old(self).used().union(usefixtures_uses(*decorator)),
            final(self).class_records() == old(self).class_records(),
            forall|k: DefinedKind| #[trigger] final(self).defined(k) == old(self).defined(k),
    {
        let name = get_decorator_name(decorator);
        if !is_usefixtures_decorator_name(name.as_str()) {
            assert(old(self).used().union(usefixtures_uses(*decorator)) =~= old(self).used());
            return;
        }
        if let Expr::Call { args, .. } = decorator {
            let ghost mut partial: Set<Seq<char>> = Set::empty();
            for i in 0..args.len()
                invariant
                    self.walked_from(old(self)),
                self.walk_state() == old(self).walk_state(),
                    self.used() == old(self).used().union(partial),
                    self.class_records() == old(self).class_records(),
                    forall|k: DefinedKind| #[trigger] self.defined(k) == old(self).defined(k),
                    forall|v: Seq<char>| partial.contains(v) ==> string_constants(args@).contains(v),
                    forall|j: int|
                        0 <= j < i && str_constant(#[trigger] args@[j]) is Some ==> partial.contains(
                            str_constant(args@[j])->0,
                        ),
            {
                match as_str_constant(&args[i]) {
                    Some(s) => {
                        self.add_used_name(s.as_str());
                        proof {
                            partial = partial.insert(s@);
                        }
                    },
                    None => {},
                }
            }
            assert(partial =~= string_constants(args@));
        } else {
            assert(old(self).used().union(usefixtures_uses(*decorator)) =~= old(self).used());
        }
    }

    /// Each alias is an import definition; an import under another name
    /// also uses the imported name.
    fn add_aliases(&mut self, names: &[Alias])
        requires
            old(self).wf(),
        ensures
            final(self).walked_from(old(self)),
            final(self).walk_state() == aliases_walk(old(self).env(), old(self).walk_state(), names@),
            final(self).used() == old(self).used().union(aliases_uses(names@)),
    {
        let ghost mut partial: Set<Seq<char>> = Set::empty();
        for i in 0..names.len()
            invariant
                self.walked_from(old(self)),
                self.walk_state() == aliases_walk(old(self).env(), old(self).walk_state(), names@.take(i as int)),
                self.used() == old(self).used().union(partial),
                forall|v: Seq<char>| partial.contains(v) ==> aliases_uses(names@).contains(v),
                forall|j: int|
                    0 <= j < i && (#[trigger] names@[j]).asname is Some ==> partial.contains(
                        names@[j].name@,
                    ),
        {
            let alias = &names[i];
            let full = chars_of(alias.name.as_str());
            let pieces = split_chars(full.as_slice(), '.');
            proof {
                lemma_split_chars_on_nonempty(full@, '.');
            }
            let first = string_from_chars(pieces[0].as_slice());
            let ignored = ignore_import(self.filename.as_str(), first.as_str());
            let none: Vec<Decorator> = Vec::new();
            let ghost before = *self;
            match &alias.asname {
                Some(a) => {
                    self.push_definition(
                        DefinedKind::Import,
                        a.as_str(),
                        alias.start,
                        alias.end,
                        none.as_slice(),
                        ignored,
                        None,
                    );
                    self.add_used_name(alias.name.as_str());
                    proof {
                        partial = partial.insert(alias.name@);
                    }
                },
                None => {
                    self.push_definition(
                        DefinedKind::Import,
                        first.as_str(),
                        alias.start,
                        alias.end,
                        none.as_slice(),
                        ignored,
                        None,
                    );
                },
            }
            assert(names@.take(i + 1).drop_last() =~= names@.take(i as int));
            assert(names@.take(i + 1).last() == names@[i as int]);
            assert(first@ == split_chars_on(alias.name@, '.')[0]);
            assert(forall|k: DefinedKind| #[trigger] old(self).defined(k).is_prefix_of(before.defined(k))
                && before.defined(k).is_prefix_of(self.defined(k)) ==> old(self).defined(k).is_prefix_of(
                self.defined(k),
            ));
        }
        assert(partial =~= aliases_uses(names@));
        assert(names@.take(names.len() as int) =~= names@);
    }

    /// A name read or deleted is used; a name stored is a variable definition.
    fn handle_name(&mut self, id: &str, ctx: ExprContext, start: u32, end: u32)
        requires
            old(self).wf(),
        ensures
            final(self).walked_from(old(self)),
            final(self).walk_state() == name_walk(old(self).env(), old(self).walk_state(), id@, ctx, start, end),
            final(self).used() == old(self).used().union(name_uses(id@, ctx)),
    {
        match ctx {
            ExprContext::Load | ExprContext::Del => {
                if !(str_eq(id, "object") || str_eq(id, "self")) {
                    self.add_used_name(id);
                } else {
                    assert(old(self).used().union(name_uses(id@, ctx)) =~= old(self).used());
                }
            },
            ExprContext::Store => {
                self.define_variable(id, start, end);
                assert(old(self).used().union(name_uses(id@, ctx)) =~= old(self).used());
            },
            ExprContext::Invalid => {
                assert(old(self).used().union(name_uses(id@, ctx)) =~= old(self).used());
            },
        }
    }

    /// An attribute read is used; an attribute stored is an attribute
    /// definition (under `--ignore-non-self-attributes` only on `self`).
    fn handle_attribute(&mut self, value: &Expr, attr: &str, ctx: ExprContext, start: u32, end: u32)
        requires
            old(self).wf(),
        ensures
            final(self).walked_from(old(self)),
            final(self).walk_state() == attribute_walk(old(self).env(), old(self).walk_state(), *value, attr@, ctx, start, end),
            final(self).used() == old(self).used().union(
                if ctx == ExprContext::Load {
                    set![attr@]
                } else {
                    Set::empty()
                },
            ),
    {
        match ctx {
            ExprContext::Store => {
                if !(self.args.ignore_non_self_attributes && !is_self_attribute_target(value)) {
                    let none: Vec<Decorator> = Vec::new();
                    self.push_definition(
                        DefinedKind::Attribute,
                        attr,
                        start,
                        end,
                        none.as_slice(),
                        false,
                        None,
                    );
                }
                assert(old(self).used().union(Set::empty()) =~= old(self).used());
            },
            ExprContext::Load => {
                self.add_used_name(attr);
                assert(old(self).used().insert(attr@) =~= old(self).used().union(set![attr@]));
            },
            _ => {
                assert(old(self).used().union(Set::empty()) =~= old(self).used());
            },
        }
    }

    /// The names a `str.format(**locals())` template reads are used.
    fn handle_new_format_string(&mut self, s: &str)
        requires
            old(self).wf(),
        ensures
            final(self).walked_from(old(self)),
            final(self).walk_state() == old(self).walk_state(),
            final(self).used() == old(self).used().union(format_uses(s@)),
            final(self).class_records() == old(self).class_records(),
            forall|k: DefinedKind| #[trigger] final(self).defined(k) == old(self).defined(k),
    {
        let fields = parse_format_fields(s);
        let ghost fv = fields_from(s@, 0);
        let pattern = string_from_chars(&['\\', '[', '\\', 'w', '*', '\\', ']']);
        assert(pattern@ =~= bracket_regex());
        let ghost mut partial: Set<Seq<char>> = Set::empty();
        for i in 0..fields.len()
            invariant
                string_views_of(fields@) == fv,
                fv == fields_from(s@, 0),
                pattern@ == bracket_regex(),
                self.walked_from(old(self)),
                self.walk_state() == old(self).walk_state(),
                self.used() == old(self).used().union(partial),
                self.class_records() == old(self).class_records(),
                forall|k: DefinedKind| #[trigger] self.defined(k) == old(self).defined(k),
                forall|v: Seq<char>| partial.contains(v) ==> format_uses(s@).contains(v),
                forall|a: int, b: int|
                    0 <= a < i && 0 <= b < split_chars_on(without_indexes(fv[a]), '.').len()
                        && spec_is_identifier_like(
                        #[trigger] split_chars_on(without_indexes(fv[a]), '.')[b],
                    ) ==> partial.contains(split_chars_on(without_indexes(fv[a]), '.')[b]),
        {
            assert(fields@[i as int]@ == fv[i as int]);
            let cleaned = match regex_replace_all(pattern.as_str(), fields[i].as_str(), "") {
                Some(t) => t,
                None => fields[i].clone(),
            };
            proof {
                reveal_strlit("");
                assert(""@ =~= Seq::<char>::empty());
            }
            assert(cleaned@ == without_indexes(fv[i as int]));
            let cc = chars_of(cleaned.as_str());
            let pieces = split_chars(cc.as_slice(), '.');
            let ghost pv = char_views(pieces@);
            for k in 0..pieces.len()
                invariant
                    pv == char_views(pieces@),
                    pv == split_chars_on(without_indexes(fv[i as int]), '.'),
                    0 <= i < fv.len(),
                    fv == fields_from(s@, 0),
                    string_views_of(fields@) == fv,
                    pattern@ == bracket_regex(),
                    self.walked_from(old(self)),
                self.walk_state() == old(self).walk_state(),
                    self.used() == old(self).used().union(partial),
                    self.class_records() == old(self).class_records(),
                    forall|k: DefinedKind| #[trigger] self.defined(k) == old(self).defined(k),
                    forall|v: Seq<char>| partial.contains(v) ==> format_uses(s@).contains(v),
                    forall|a: int, b: int|
                        0 <= a < i && 0 <= b < split_chars_on(without_indexes(fv[a]), '.').len()
                            && spec_is_identifier_like(
                            #[trigger] split_chars_on(without_indexes(fv[a]), '.')[b],
                        ) ==> partial.contains(split_chars_on(without_indexes(fv[a]), '.')[b]),
                    forall|b: int|
                        0 <= b < k && spec_is_identifier_like(#[trigger] pv[b]) ==> partial.contains(
                            pv[b],
                        ),
            {
                let piece = string_from_chars(pieces[k].as_slice());
                assert(piece@ == pv[k as int]);
                if is_identifier_like(piece.as_str()) {
                    self.add_used_name(piece.as_str());
                    proof {
                        assert(format_uses(s@).contains(piece@)) by {
                            assert(0 <= i < fv.len());
                            assert(0 <= k < split_chars_on(without_indexes(fv[i as int]), '.').len());
                            assert(split_chars_on(without_indexes(fields_from(s@, 0)[i as int]), '.')[k as int]
                                == piece@);
                            assert(spec_is_identifier_like(piece@));
                        }
                        partial = partial.insert(piece@);
                    }
                }
            }
        }
        assert forall|v: Seq<char>| format_uses(s@).contains(v) implies partial.contains(v) by {
            let (a, b) = choose|a: int, b: int|
                0 <= a < fv.len() && 0 <= b < split_chars_on(without_indexes(fv[a]), '.').len()
                    && #[trigger] split_chars_on(without_indexes(fv[a]), '.')[b] == v
                    && spec_is_identifier_like(v);
            assert(spec_is_identifier_like(split_chars_on(without_indexes(fv[a]), '.')[b]));
        }
        assert(partial =~= format_uses(s@));
    }

    /// The `%(name)` placeholders of `"template" % locals()` are used.
    fn handle_binop(&mut self, left: &Expr, op: Operator, right: &Expr)
        requires
            old(self).wf(),
        ensures
            final(self).walked_from(old(self)),
            final(self).walk_state() == old(self).walk_state(),
            final(self).used() == old(self).used().union(binop_uses(*left, op, *right)),
            final(self).class_records() == old(self).class_records(),
            forall|k: DefinedKind| #[trigger] final(self).defined(k) == old(self).defined(k),
    {
        let s = match as_str_constant(left) {
            Some(s) => s,
            None => {
                assert(old(self).used().union(binop_uses(*left, op, *right)) =~= old(self).used());
                return;
            },
        };
        if !(op == Operator::Mod && is_locals_call(right)) {
            assert(old(self).used().union(binop_uses(*left, op, *right)) =~= old(self).used());
            return;
        }
        let pattern = string_from_chars(&['%', '\\', '(', '(', '\\', 'w', '+', ')', '\\', ')']);
        assert(pattern@ =~= percent_regex());
        match regex_group_captures(pattern.as_str(), s.as_str(), 1) {
            None => {
                assert(old(self).used().union(binop_uses(*left, op, *right)) =~= old(self).used());
            },
            Some(caps) => {
                let ghost mut partial: Set<Seq<char>> = Set::empty();
                let ghost w = crate::utils::regex_support::regex_group_captures_result(
                    percent_regex(),
                    s@,
                    1,
                )->0;
                for i in 0..caps.len()
                    invariant
                        caps@.len() == w.len(),
                        forall|j: int|
                            0 <= j < w.len() ==> match (#[trigger] caps@[j], w[j]) {
                                (None, None) => true,
                                (Some(a), Some(b)) => a@ == b,
                                _ => false,
                            },
                        w == crate::utils::regex_support::regex_group_captures_result(
                            percent_regex(),
                            s@,
                            1,
                        )->0,
                        self.walked_from(old(self)),
                self.walk_state() == old(self).walk_state(),
                        self.used() == old(self).used().union(partial),
                        self.class_records() == old(self).class_records(),
                        forall|k: DefinedKind| #[trigger] self.defined(k) == old(self).defined(k),
                        forall|v: Seq<char>|
                            partial.contains(v) ==> exists|j: int| 0 <= j < w.len() && #[trigger] w[j] == Some(v),
                        forall|j: int| 0 <= j < i && (#[trigger] w[j]) is Some ==> partial.contains(w[j]->0),
                {
                    match &caps[i] {
                        Some(name) => {
                            self.add_used_name(name.as_str());
                            proof {
                                assert(w[i as int] == Some(name@));
                                partial = partial.insert(name@);
                            }
                        },
                        None => {},
                    }
                }
                assert(partial =~= percent_uses(s@));
            },
        }
    }

    /// What a call names through strings is used.
    fn handle_call(&mut self, func: &Expr, args: &[Expr], keywords: &[Keyword])
        requires
            old(self).wf(),
        ensures
            final(self).walked_from(old(self)),
            final(self).walk_state() == old(self).walk_state(),
            final(self).used() == old(self).used().union(call_uses(*func, args@, keywords@)),
            final(self).class_records() == old(self).class_records(),
            forall|k: DefinedKind| #[trigger] final(self).defined(k) == old(self).defined(k),
    {
        match func {
            Expr::Name { id, .. } => {
                let n = args.len();
                let matches_getattr = str_eq(id.as_str(), "getattr") && 2 <= n && n <= 3;
                let matches_hasattr = str_eq(id.as_str(), "hasattr") && n == 2;
                if matches_getattr || matches_hasattr {
                    match as_str_constant(&args[1]) {
                        Some(s) => {
                            self.add_used_name(s.as_str());
                        },
                        None => {},
                    }
                }
                assert(self.used() =~= old(self).used().union(call_uses(*func, args@, keywords@)));
            },
            Expr::Attribute { value, attr, .. } => {
                if str_eq(attr.as_str(), "getfixturevalue") && args.len() == 1 {
                    match as_str_constant(&args[0]) {
                        Some(s) => {
                            self.add_used_name(s.as_str());
                        },
                        None => {},
                    }
                }
                let ghost mid = *self;
                assert(mid.used() =~= old(self).used().union(
                    if attr@ == "getfixturevalue"@ && args@.len() == 1 {
                        string_arg_uses(args@, 0)
                    } else {
                        Set::empty()
                    },
                ));
                let template = as_str_constant(value);
                if str_eq(attr.as_str(), "format") && template.is_some() {
                    let mut has_locals = false;
                    for k in 0..keywords.len()
                        invariant
                            has_locals == exists|j: int|
                                0 <= j < k && (#[trigger] keywords@[j]).arg is None
                                    && spec_is_locals_call(keywords@[j].value),
                    {
                        if keywords[k].arg.is_none() && is_locals_call(&keywords[k].value) {
                            has_locals = true;
                        }
                    }
                    assert(has_locals == has_locals_kwargs(keywords@));
                    if has_locals {
                        let t = template.unwrap();
                        self.handle_new_format_string(t.as_str());
                    }
                }
                assert(self.used() =~= old(self).used().union(call_uses(*func, args@, keywords@)));
            },
            _ => {
                assert(old(self).used().union(call_uses(*func, args@, keywords@)) =~= old(self).used());
            },
        }
    }

    /// Walking twice is walking.
    proof fn lemma_walked_trans(a: &Self, b: &Self, c: &Self)
        requires
            b.walked_from(a),
            c.walked_from(b),
        ensures
            c.walked_from(a),
    {
        Self::lemma_progressed_trans(a, b, c);
    }

    /// Progress is transitive.
    proof fn lemma_progressed_trans(a: &Self, b: &Self, c: &Self)
        requires
            b.progressed_from(a),
            c.progressed_from(b),
        ensures
            c.progressed_from(a),
    {
        assert forall|k: DefinedKind| a.defined(k).is_prefix_of(#[trigger] c.defined(k)) by {
            assert(a.defined(k).is_prefix_of(b.defined(k)));
            assert(b.defined(k).is_prefix_of(c.defined(k)));
            assert(c.defined(k).subrange(0, a.defined(k).len() as int) =~= b.defined(k).subrange(
                0,
                a.defined(k).len() as int,
            ));
        }
        assert(c.class_records().subrange(0, a.class_records().len() as int) =~= b.class_records().subrange(
            0,
            a.class_records().len() as int,
        ));
    }

    /// Walks an expression: records the names it uses and the definitions it makes.
    fn walk_expr(&mut self, expr: &Expr)
        requires
            old(self).wf(),
        ensures
            final(self).walked_from(old(self)),
            final(self).walk_state() == expr_walk(old(self).env(), old(self).walk_state(), *expr),
            final(self).used() == old(self).used().union(expr_uses(*expr)),
        decreases expr,
    {
        let ghost s0 = *self;
        match expr {
            Expr::Name { id, ctx, start, end } => {
                self.handle_name(id.as_str(), *ctx, *start, *end);
            },
            Expr::Attribute { value, attr, ctx, start, end } => {
                self.handle_attribute(value, attr.as_str(), *ctx, *start, *end);
                let ghost s1 = *self;
                self.walk_expr(value);
                proof {
                    Self::lemma_walked_trans(&s0, &s1, self);
                }
            },
            Expr::Call { func, args, keywords } => {
                self.handle_call(func, args.as_slice(), keywords.as_slice());
                let ghost s1 = *self;
                self.walk_expr(func);
                let ghost s2 = *self;
                self.walk_exprs(args);
                let ghost s3 = *self;
                self.walk_keywords(keywords);
                proof {
                    Self::lemma_walked_trans(&s0, &s1, &s2);
                    Self::lemma_walked_trans(&s0, &s2, &s3);
                    Self::lemma_walked_trans(&s0, &s3, self);
                }
            },
            Expr::BinOp { left, op, right } => {
                self.handle_binop(left, *op, right);
                let ghost s1 = *self;
                self.walk_expr(left);
                let ghost s2 = *self;
                self.walk_expr(right);
                proof {
                    Self::lemma_walked_trans(&s0, &s1, &s2);
                    Self::lemma_walked_trans(&s0, &s2, self);
                }
            },
            Expr::BoolOp { values } => {
                self.walk_exprs(values);
            },
            Expr::UnaryOp { operand } => {
                self.walk_expr(operand);
            },
            Expr::Named { target, value } => {
                self.walk_expr(target);
                let ghost s1 = *self;
                self.walk_expr(value);
                proof {
                    Self::lemma_walked_trans(&s0, &s1, self);
                }
            },
            Expr::Lambda { parameters, body } => {
                match parameters {
                    Some(p) => {
                        self.walk_parameters(p);
                    },
                    None => {},
                }
                let ghost s1 = *self;
                self.walk_expr(body);
                proof {
                    Self::lemma_walked_trans(&s0, &s1, self);
                }
            },
            Expr::IfExp { test, body, orelse } => {
                self.walk_expr(test);
                let ghost s1 = *self;
                self.walk_expr(body);
                let ghost s2 = *self;
                self.walk_expr(orelse);
                proof {
                    Self::lemma_walked_trans(&s0, &s1, &s2);
                    Self::lemma_walked_trans(&s0, &s2, self);
                }
            },
            Expr::Dict { items } => {
                self.walk_dict_items(items);
            },
            Expr::SetDisplay { elts } => {
                self.walk_exprs(elts);
            },
            Expr::ListComp { elt, generators } => {
                self.walk_expr(elt);
                let ghost s1 = *self;
                self.walk_comprehensions(generators);
                proof {
                    Self::lemma_walked_trans(&s0, &s1, self);
                }
            },
            Expr::SetComp { elt, generators } => {
                self.walk_expr(elt);
                let ghost s1 = *self;
                self.walk_comprehensions(generators);
                proof {
                    Self::lemma_walked_trans(&s0, &s1, self);
                }
            },
            Expr::DictComp { key, value, generators } => {
                match key {
                    Some(k) => {
                        self.walk_expr(k);
                    },
                    None => {},
                }
                let ghost s1 = *self;
                self.walk_expr(value);
                let ghost s2 = *self;
                self.walk_comprehensions(generators);
                proof {
                    Self::lemma_walked_trans(&s0, &s1, &s2);
                    Self::lemma_walked_trans(&s0, &s2, self);
                }
            },
            Expr::Generator { elt, generators } => {
                self.walk_expr(elt);
                let ghost s1 = *self;
                self.walk_comprehensions(generators);
                proof {
                    Self::lemma_walked_trans(&s0, &s1, self);
                }
            },
            Expr::Await { value } => {
                self.walk_expr(value);
            },
            Expr::Yield { value } => {
                match value {
                    Some(v) => {
                        self.walk_expr(v);
                    },
                    None => {},
                }
            },
            Expr::YieldFrom { value } => {
                self.walk_expr(value);
            },
            Expr::Compare { left, comparators } => {
                self.walk_expr(left);
                let ghost s1 = *self;
                self.walk_exprs(comparators);
                proof {
                    Self::lemma_walked_trans(&s0, &s1, self);
                }
            },
            Expr::FString { elements } => {
                self.walk_elements(elements);
            },
            Expr::TString { elements } => {
                self.walk_elements(elements);
            },
            Expr::Subscript { value, slice } => {
                self.walk_expr(value);
                let ghost s1 = *self;
                self.walk_expr(slice);
                proof {
                    Self::lemma_walked_trans(&s0, &s1, self);
                }
            },
            Expr::Starred { value } => {
                self.walk_expr(value);
            },
            Expr::List { elts } => {
                self.walk_exprs(elts);
            },
            Expr::Tuple { elts } => {
                self.walk_exprs(elts);
            },
            Expr::Slice { lower, upper, step } => {
                match lower {
                    Some(x) => {
                        self.walk_expr(x);
                    },
                    None => {},
                }
                let ghost s1 = *self;
                match upper {
                    Some(x) => {
                        self.walk_expr(x);
                    },
                    None => {},
                }
                let ghost s2 = *self;
                match step {
                    Some(x) => {
                        self.walk_expr(x);
                    },
                    None => {},
                }
                proof {
                    Self::lemma_walked_trans(&s0, &s1, &s2);
                    Self::lemma_walked_trans(&s0, &s2, self);
                }
            },
            _ => {},
        }
        assert(self.used() =~= old(self).used().union(expr_uses(*expr)));
    }

    /// Walks some expressions in order.
    fn walk_exprs(&mut self, es: &Vec<Expr>)
        requires
            old(self).wf(),
        ensures
            final(self).walked_from(old(self)),
            final(self).walk_state() == exprs_walk(old(self).env(), old(self).walk_state(), es@),
            final(self).used() == old(self).used().union(exprs_uses(es@)),
        decreases es,
    {
        for i in 0..es.len()
            invariant
                self.walked_from(old(self)),
                self.walk_state() == exprs_walk(old(self).env(), old(self).walk_state(), es@.take(i as int)),
                self.used() == old(self).used().union(exprs_uses(es@.take(i as int))),
        {
            let ghost s1 = *self;
            self.walk_expr(&es[i]);
            proof {
                Self::lemma_walked_trans(old(self), &s1, self);
                assert(es@.take(i + 1).subrange(0, i as int) =~= es@.take(i as int));
            }
            assert(self.used() =~= old(self).used().union(exprs_uses(es@.take(i + 1))));
        }
        assert(es@.take(es.len() as int) =~= es@);
    }

    /// Walks the values of some keyword arguments.
    fn walk_keywords(&mut self, ks: &Vec<Keyword>)
        requires
            old(self).wf(),
        ensures
            final(self).walked_from(old(self)),
            final(self).walk_state() == keywords_walk(old(self).env(), old(self).walk_state(), ks@),
            final(self).used() == old(self).used().union(keywords_uses(ks@)),
        decreases ks,
    {
        for i in 0..ks.len()
            invariant
                self.walked_from(old(self)),
                self.walk_state() == keywords_walk(old(self).env(), old(self).walk_state(), ks@.take(i as int)),
                self.used() == old(self).used().union(keywords_uses(ks@.take(i as int))),
        {
            let ghost s1 = *self;
            self.walk_expr(&ks[i].value);
            proof {
                Self::lemma_walked_trans(old(self), &s1, self);
                assert(ks@.take(i + 1).subrange(0, i as int) =~= ks@.take(i as int));
            }
            assert(self.used() =~= old(self).used().union(keywords_uses(ks@.take(i + 1))));
        }
        assert(ks@.take(ks.len() as int) =~= ks@);
    }

    /// Walks the keys, then the values, of a dict display.
    fn walk_dict_items(&mut self, items: &Vec<DictItem>)
        requires
            old(self).wf(),
        ensures
            final(self).walked_from(old(self)),
            final(self).walk_state() == dict_values_walk(
                old(self).env(),
                dict_keys_walk(old(self).env(), old(self).walk_state(), items@),
                items@,
            ),
            final(self).used() == old(self).used().union(dict_items_uses(items@)),
        decreases items,
    {
        let ghost mut keys: Set<Seq<char>> = Set::empty();
        for i in 0..items.len()
            invariant
                self.walked_from(old(self)),
                self.walk_state() == dict_keys_walk(old(self).env(), old(self).walk_state(), items@.take(i as int)),
                self.used() == old(self).used().union(keys),
                forall|v: Seq<char>| keys.contains(v) ==> dict_items_uses(items@).contains(v),
                forall|j: int, v: Seq<char>|
                    0 <= j < i && items@[j].key is Some && #[trigger] expr_uses(items@[j].key->0).contains(v)
                        ==> keys.contains(v),
        {
            let ghost s1 = *self;
            match &items[i].key {
                Some(k) => {
                    self.walk_expr(k);
                    proof {
                        assert forall|v: Seq<char>| expr_uses(*k).contains(v) implies dict_items_uses(
                            items@,
                        ).contains(v) by {
                            lemma_dict_items_uses_contains(items@, i as int, v);
                        }
                        keys = keys.union(expr_uses(*k));
                    }
                },
                None => {},
            }
            proof {
                Self::lemma_walked_trans(old(self), &s1, self);
                assert(items@.take(i + 1).subrange(0, i as int) =~= items@.take(i as int));
            }
            assert(self.used() =~= old(self).used().union(keys));
        }
        assert(items@.take(items.len() as int) =~= items@);
        let ghost mut values: Set<Seq<char>> = Set::empty();
        let ghost s2 = *self;
        for i in 0..items.len()
            invariant
                self.walked_from(old(self)),
                self.walk_state() == dict_values_walk(old(self).env(), s2.walk_state(), items@.take(i as int)),
                self.used() == old(self).used().union(keys).union(values),
                forall|v: Seq<char>| values.contains(v) ==> dict_items_uses(items@).contains(v),
                forall|j: int, v: Seq<char>|
                    0 <= j < i && #[trigger] expr_uses(items@[j].value).contains(v) ==> values.contains(v),
        {
            let ghost s1 = *self;
            self.walk_expr(&items[i].value);
            proof {
                assert forall|v: Seq<char>| expr_uses(items@[i as int].value).contains(v) implies dict_items_uses(
                    items@,
                ).contains(v) by {
                    lemma_dict_items_uses_contains(items@, i as int, v);
                }
                values = values.union(expr_uses(items@[i as int].value));
                Self::lemma_walked_trans(old(self), &s1, self);
                assert(items@.take(i + 1).subrange(0, i as int) =~= items@.take(i as int));
            }
            assert(self.used() =~= old(self).used().union(keys).union(values));
        }
        assert(items@.take(items.len() as int) =~= items@);
        proof {
            assert forall|v: Seq<char>| dict_items_uses(items@).contains(v) implies keys.union(values).contains(
                v,
            ) by {
                let j = lemma_dict_items_uses_witness(items@, v);
            }
        }
        assert(self.used() =~= old(self).used().union(dict_items_uses(items@)));
    }

    /// Walks the clauses of a comprehension.
    fn walk_comprehensions(&mut self, gens: &Vec<Comprehension>)
        requires
            old(self).wf(),
        ensures
            final(self).walked_from(old(self)),
            final(self).walk_state() == comprehensions_walk(old(self).env(), old(self).walk_state(), gens@),
            final(self).used() == old(self).used().union(comprehensions_uses(gens@)),
        decreases gens,
    {
        for i in 0..gens.len()
            invariant
                self.walked_from(old(self)),
                self.walk_state() == comprehensions_walk(old(self).env(), old(self).walk_state(), gens@.take(i as int)),
                self.used() == old(self).used().union(comprehensions_uses(gens@.take(i as int))),
        {
            let g = &gens[i];
            let ghost s1 = *self;
            self.walk_expr(&g.target);
            let ghost s2 = *self;
            self.walk_expr(&g.iter);
            let ghost s3 = *self;
            self.walk_exprs(&g.ifs);
            proof {
                Self::lemma_walked_trans(old(self), &s1, &s2);
                Self::lemma_walked_trans(old(self), &s2, &s3);
                Self::lemma_walked_trans(old(self), &s3, self);
                assert(gens@.take(i + 1).subrange(0, i as int) =~= gens@.take(i as int));
            }
            assert(self.used() =~= old(self).used().union(comprehensions_uses(gens@.take(i + 1))));
        }
        assert(gens@.take(gens.len() as int) =~= gens@);
    }

    /// Walks the interpolations of an f-string or t-string.
    fn walk_elements(&mut self, elements: &Vec<InterpolatedElement>)
        requires
            old(self).wf(),
        ensures
            final(self).walked_from(old(self)),
            final(self).walk_state() == elements_walk(old(self).env(), old(self).walk_state(), elements@),
            final(self).used() == old(self).used().union(elements_uses(elements@)),
        decreases elements,
    {
        for i in 0..elements.len()
            invariant
                self.walked_from(old(self)),
                self.walk_state() == elements_walk(old(self).env(), old(self).walk_state(), elements@.take(i as int)),
                self.used() == old(self).used().union(elements_uses(elements@.take(i as int))),
        {
            let ghost s1 = *self;
            self.walk_interpolated_element(&elements[i]);
            proof {
                Self::lemma_walked_trans(old(self), &s1, self);
                assert(elements@.take(i + 1).subrange(0, i as int) =~= elements@.take(i as int));
            }
            assert(self.used() =~= old(self).used().union(elements_uses(elements@.take(i + 1))));
        }
        assert(elements@.take(elements.len() as int) =~= elements@);
    }

    /// Literal chunks hold no names; an interpolation holds an expression and
    /// possibly a format specification with further interpolations.
    fn walk_interpolated_element(&mut self, element: &InterpolatedElement)
        requires
            old(self).wf(),
        ensures
            final(self).walked_from(old(self)),
            final(self).walk_state() == element_walk(old(self).env(), old(self).walk_state(), *element),
            final(self).used() == old(self).used().union(element_uses(*element)),
        decreases element,
    {
        match element {
            InterpolatedElement::Interpolation { expression, format_spec } => {
                self.walk_expr(expression);
                let ghost s1 = *self;
                match format_spec {
                    Some(spec) => {
                        self.walk_elements(spec);
                    },
                    None => {},
                }
                proof {
                    Self::lemma_walked_trans(old(self), &s1, self);
                }
            },
            InterpolatedElement::Literal => {},
        }
        assert(self.used() =~= old(self).used().union(element_uses(*element)));
    }

    /// Walks a parameter's annotation.
    fn walk_parameter(&mut self, p: &Parameter)
        requires
            old(self).wf(),
        ensures
            final(self).walked_from(old(self)),
            final(self).walk_state() == parameter_walk(old(self).env(), old(self).walk_state(), *p),
            final(self).used() == old(self).used().union(parameter_uses(*p)),
        decreases p,
    {
        match &p.annotation {
            Some(a) => {
                self.walk_expr(a);
            },
            None => {},
        }
        assert(self.used() =~= old(self).used().union(parameter_uses(*p)));
    }

    /// Walks the annotations and defaults of some parameters.
    fn walk_defaulted(&mut self, ps: &Vec<ParameterWithDefault>)
        requires
            old(self).wf(),
        ensures
            final(self).walked_from(old(self)),
            final(self).walk_state() == defaulted_walk(old(self).env(), old(self).walk_state(), ps@),
            final(self).used() == old(self).used().union(defaulted_uses(ps@)),
        decreases ps,
    {
        for i in 0..ps.len()
            invariant
                self.walked_from(old(self)),
                self.walk_state() == defaulted_walk(old(self).env(), old(self).walk_state(), ps@.take(i as int)),
                self.used() == old(self).used().union(defaulted_uses(ps@.take(i as int))),
        {
            let ghost s1 = *self;
            self.walk_parameter(&ps[i].parameter);
            let ghost s2 = *self;
            match &ps[i].default {
                Some(d) => {
                    self.walk_expr(d);
                },
                None => {},
            }
            proof {
                Self::lemma_walked_trans(old(self), &s1, &s2);
                Self::lemma_walked_trans(old(self), &s2, self);
                assert(ps@.take(i + 1).subrange(0, i as int) =~= ps@.take(i as int));
            }
            assert(self.used() =~= old(self).used().union(defaulted_uses(ps@.take(i + 1))));
        }
        assert(ps@.take(ps.len() as int) =~= ps@);
    }

    /// Walks the annotations and defaults of a parameter list.
    fn walk_parameters(&mut self, p: &Parameters)
        requires
            old(self).wf(),
        ensures
            final(self).walked_from(old(self)),
            final(self).walk_state() == parameters_walk(old(self).env(), old(self).walk_state(), *p),
            final(self).used() == old(self).used().union(parameters_uses(*p)),
        decreases p,
    {
        self.walk_defaulted(&p.posonlyargs);
        let ghost s1 = *self;
        self.walk_defaulted(&p.args);
        let ghost s2 = *self;
        self.walk_defaulted(&p.kwonlyargs);
        let ghost s3 = *self;
        match &p.vararg {
            Some(v) => {
                self.walk_parameter(v);
            },
            None => {},
        }
        let ghost s4 = *self;
        match &p.kwarg {
            Some(k) => {
                self.walk_parameter(k);
            },
            None => {},
        }
        proof {
            Self::lemma_walked_trans(old(self), &s1, &s2);
            Self::lemma_walked_trans(old(self), &s2, &s3);
            Self::lemma_walked_trans(old(self), &s3, &s4);
            Self::lemma_walked_trans(old(self), &s4, self);
        }
        assert(self.used() =~= old(self).used().union(parameters_uses(*p)));
    }

    /// A class's flattened inherits-from chain (see `spec_inherits_from`).
    fn compute_inherits_from(&self, bases: &Vec<Expr>) -> (r: Option<Vec<String>>)
        ensures
            match r {
                None => spec_inherits_from(self.class_records(), self.scope_path(), bases@) is None,
                Some(v) => spec_inherits_from(self.class_records(), self.scope_path(), bases@) == Some(
                    string_views(v@),
                ),
            },
    {
        if bases.len() == 0 {
            return None;
        }
        let mut names: Vec<String> = Vec::new();
        for i in 0..bases.len()
            invariant
                string_views(names@) == base_names(bases@.take(i as int)),
        {
            assert(bases@.take(i + 1).drop_last() =~= bases@.take(i as int));
            let ghost before = string_views(names@);
            if let Expr::Name { id, .. } = &bases[i] {
                names.push(id.clone());
                assert(string_views(names@) =~= before.push(id@));
            }
        }
        assert(bases@.take(bases.len() as int) =~= bases@);
        let ghost nv = string_views(names@);
        let mut out = copy_strings(&names);
        for i in 0..names.len()
            invariant
                nv == string_views(names@),
                nv == base_names(bases@),
                string_views(out@) == nv + inherited_chains(
                    self.class_records(),
                    self.scope_path(),
                    nv.take(i as int),
                ),
        {
            assert(nv.take(i + 1).drop_last() =~= nv.take(i as int));
            assert(nv.take(i + 1).last() == names@[i as int]@);
            match self.scopes.get_inherits_from(self.scope_parts.as_slice(), names[i].as_str()) {
                Some(chain) => {
                    for k in 0..chain.len()
                        invariant
                            nv == string_views(names@),
                            nv == base_names(bases@),
                            string_views(out@) == nv + inherited_chains(
                                self.class_records(),
                                self.scope_path(),
                                nv.take(i as int),
                            ) + string_views(chain@).take(k as int),
                    {
                        let ghost before = string_views(out@);
                        out.push(chain[k].clone());
                        assert(string_views(out@) =~= before.push(chain@[k as int]@));
                        assert(string_views(chain@).take(k + 1) =~= string_views(chain@).take(k as int).push(
                            chain@[k as int]@,
                        ));
                    }
                    assert(string_views(chain@).take(chain.len() as int) =~= string_views(chain@));
                },
                None => {},
            }
            assert(string_views(out@) =~= nv + inherited_chains(
                self.class_records(),
                self.scope_path(),
                nv.take(i + 1),
            ));
        }
        assert(nv.take(names.len() as int) =~= nv);
        Some(out)
    }

    /// Records a function or method definition (see `function_definition`);
    /// the fixtures its `usefixtures` marks name are used.
    fn walk_function_like(
        &mut self,
        name: &str,
        parameters: &Parameters,
        decorator_list: &Vec<Decorator>,
        start: u32,
        end: u32,
    )
        requires
            old(self).wf(),
        ensures
            final(self).walked_from(old(self)),
            final(self).walk_state() == function_walk(old(self).env(), old(self).walk_state(), name@, *parameters, decorator_list@, start, end),
            final(self).used() == old(self).used().union(decorators_fixture_uses(decorator_list@)),
    {
        let mut decorator_names: Vec<String> = Vec::new();
        for i in 0..decorator_list.len()
            invariant
                string_views(decorator_names@) == decorator_list@.take(i as int).map_values(
                    |d: Decorator| spec_decorator_name(d.expression),
                ),
        {
            let ghost before = string_views(decorator_names@);
            let n = get_decorator_name(&decorator_list[i].expression);
            decorator_names.push(n);
            assert(string_views(decorator_names@) =~= before.push(
                spec_decorator_name(decorator_list@[i as int].expression),
            ));
            assert(decorator_list@.take(i + 1).map_values(|d: Decorator| spec_decorator_name(d.expression))
                =~= decorator_list@.take(i as int).map_values(
                |d: Decorator| spec_decorator_name(d.expression),
            ).push(spec_decorator_name(decorator_list@[i as int].expression)));
        }
        assert(decorator_list@.take(decorator_list.len() as int) =~= decorator_list@);
        let ghost names = decorator_list@.map_values(|d: Decorator| spec_decorator_name(d.expression));
        let ghost mut partial: Set<Seq<char>> = Set::empty();
        for i in 0..decorator_list.len()
            invariant
                self.walked_from(old(self)),
                self.walk_state() == old(self).walk_state(),
                self.used() == old(self).used().union(partial),
                self.class_records() == old(self).class_records(),
                forall|k: DefinedKind| #[trigger] self.defined(k) == old(self).defined(k),
                forall|v: Seq<char>| partial.contains(v) ==> decorators_fixture_uses(decorator_list@).contains(v),
                forall|j: int, v: Seq<char>|
                    0 <= j < i && #[trigger] usefixtures_uses(decorator_list@[j].expression).contains(v)
                        ==> partial.contains(v),
        {
            let ghost s1 = *self;
            self.track_usefixtures_mark(&decorator_list[i].expression);
            proof {
                Self::lemma_walked_trans(old(self), &s1, self);
                partial = partial.union(usefixtures_uses(decorator_list@[i as int].expression));
            }
            assert(self.used() =~= old(self).used().union(partial));
        }
        assert(partial =~= decorators_fixture_uses(decorator_list@));
        let ghost s2 = *self;
        let mut is_property = false;
        let mut by_decorator = false;
        for i in 0..decorator_names.len()
            invariant
                string_views(decorator_names@) == names,
                is_property == names.take(i as int).contains("@property"@),
                by_decorator == (names.take(i as int).contains("@staticmethod"@) || names.take(
                    i as int,
                ).contains("@classmethod"@)),
        {
            proof {
                lemma_take_contains(names, i as int, "@property"@);
                lemma_take_contains(names, i as int, "@staticmethod"@);
                lemma_take_contains(names, i as int, "@classmethod"@);
            }
            let n = decorator_names[i].as_str();
            assert(n@ == names[i as int]);
            if str_eq(n, "@property") {
                is_property = true;
            }
            if str_eq(n, "@staticmethod") || str_eq(n, "@classmethod") {
                by_decorator = true;
            }
        }
        assert(names.take(decorator_names.len() as int) =~= names);
        let first_is_self = parameters.args.len() > 0 && str_eq(
            parameters.args[0].parameter.name.as_str(),
            "self",
        );
        let is_method = by_decorator || first_is_self;
        let filename = self.filename.as_str();
        let cwd = self.cwd.as_str();
        assert(string_views(decorator_names@) == names);
        if ignore_pytest_fixture(cwd, filename, decorator_names.as_slice()) {
        } else if ignore_override(decorator_names.as_slice()) {
        } else if ignore_attrs_field_hook(decorator_names.as_slice()) {
        } else if is_property {
            let n = name;
            self.push_definition(
                DefinedKind::Property,
                n,
                start,
                end,
                decorator_list.as_slice(),
                false,
                None,
            );
        } else if is_method {
            let ignored = ignore_method(self.cwd.as_str(), self.filename.as_str(), name);
            self.push_definition(
                DefinedKind::Method,
                name,
                start,
                end,
                decorator_list.as_slice(),
                ignored,
                None,
            );
        } else {
            let ignored = ignore_function(self.cwd.as_str(), self.filename.as_str(), name);
            self.push_definition(
                DefinedKind::Function,
                name,
                start,
                end,
                decorator_list.as_slice(),
                ignored,
                None,
            );
        }
        proof {
            Self::lemma_walked_trans(old(self), &s2, self);
        }
    }

    /// Walks a `match` pattern: the values and classes it tests, and the
    /// attribute names of class patterns, are used.
    fn handle_match_pattern(&mut self, pattern: &Pattern)
        requires
            old(self).wf(),
        ensures
            final(self).walked_from(old(self)),
            final(self).walk_state() == pattern_walk(old(self).env(), old(self).walk_state(), *pattern),
            final(self).used() == old(self).used().union(pattern_uses(*pattern)),
        decreases pattern,
    {
        match pattern {
            Pattern::MatchValue { value } => {
                self.walk_expr(value);
            },
            Pattern::MatchSequence { patterns } => {
                self.walk_patterns(patterns);
            },
            Pattern::MatchMapping { keys, patterns } => {
                self.walk_exprs(keys);
                let ghost s1 = *self;
                self.walk_patterns(patterns);
                proof {
                    Self::lemma_walked_trans(old(self), &s1, self);
                }
            },
            Pattern::MatchClass { cls, patterns, keywords } => {
                let ghost mut attrs: Set<Seq<char>> = Set::empty();
                for i in 0..keywords.len()
                    invariant
                        self.walked_from(old(self)),
                        self.walk_state() == old(self).walk_state(),
                        self.used() == old(self).used().union(attrs),
                        forall|v: Seq<char>| attrs.contains(v) ==> pattern_keywords_uses(keywords@).contains(v),
                        forall|j: int| 0 <= j < i ==> attrs.contains(#[trigger] keywords@[j].attr@),
                {
                    let ghost s1 = *self;
                    self.add_used_name(keywords[i].attr.as_str());
                    proof {
                        lemma_pattern_keywords_uses_contains(keywords@, i as int, keywords@[i as int].attr@);
                        attrs = attrs.insert(keywords@[i as int].attr@);
                        Self::lemma_walked_trans(old(self), &s1, self);
                    }
                }
                let ghost s2 = *self;
                self.walk_expr(cls);
                let ghost s3 = *self;
                self.walk_patterns(patterns);
                let ghost s4 = *self;
                let ghost mut inner: Set<Seq<char>> = Set::empty();
                for i in 0..keywords.len()
                    invariant
                        (*pattern matches Pattern::MatchClass { keywords: kw, .. } && kw == *keywords),
                        self.walked_from(&s4),
                        self.walk_state() == pattern_keywords_walk(s4.env(), s4.walk_state(), keywords@.take(i as int)),
                        self.used() == s4.used().union(inner),
                        forall|v: Seq<char>| inner.contains(v) ==> pattern_keywords_uses(keywords@).contains(v),
                        forall|j: int, v: Seq<char>|
                            0 <= j < i && #[trigger] pattern_uses(keywords@[j].pattern).contains(v) ==> inner.contains(v),
                    decreases keywords.len() - i,
                {
                    let ghost s1 = *self;
                    proof {
                    }
                    self.handle_match_pattern(&keywords[i].pattern);
                    proof {
                        assert forall|v: Seq<char>| pattern_uses(keywords@[i as int].pattern).contains(v) implies pattern_keywords_uses(
                            keywords@,
                        ).contains(v) by {
                            lemma_pattern_keywords_uses_contains(keywords@, i as int, v);
                        }
                        inner = inner.union(pattern_uses(keywords@[i as int].pattern));
                        Self::lemma_walked_trans(&s4, &s1, self);
                        assert(keywords@.take(i + 1).subrange(0, i as int) =~= keywords@.take(i as int));
                    }
                    assert(self.used() =~= s4.used().union(inner));
                }
                assert(keywords@.take(keywords.len() as int) =~= keywords@);
                proof {
                    Self::lemma_walked_trans(old(self), &s2, &s3);
                    Self::lemma_walked_trans(old(self), &s3, &s4);
                    Self::lemma_walked_trans(old(self), &s4, self);
                    assert forall|v: Seq<char>| pattern_keywords_uses(keywords@).contains(v) implies attrs.union(
                        inner,
                    ).contains(v) by {
                        let j = lemma_pattern_keywords_uses_witness(keywords@, v);
                        if keywords@[j].attr@ == v {
                            assert(attrs.contains(keywords@[j].attr@));
                        } else {
                            assert(pattern_uses(keywords@[j].pattern).contains(v));
                        }
                    }
                    assert(attrs.union(inner) =~= pattern_keywords_uses(keywords@));
                    assert(s2.used() == old(self).used().union(attrs));
                    assert(self.used() =~= old(self).used().union(pattern_uses(*pattern)));
                }
            },
            Pattern::MatchAs { pattern } => {
                match pattern {
                    Some(q) => {
                        self.handle_match_pattern(q);
                    },
                    None => {},
                }
            },
            Pattern::MatchOr { patterns } => {
                self.walk_patterns(patterns);
            },
            _ => {},
        }
        assert(self.used() =~= old(self).used().union(pattern_uses(*pattern)));
    }

    /// Walks some patterns in order.
    fn walk_patterns(&mut self, ps: &Vec<Pattern>)
        requires
            old(self).wf(),
        ensures
            final(self).walked_from(old(self)),
            final(self).walk_state() == patterns_walk(old(self).env(), old(self).walk_state(), ps@),
            final(self).used() == old(self).used().union(patterns_uses(ps@)),
        decreases ps,
    {
        for i in 0..ps.len()
            invariant
                self.walked_from(old(self)),
                self.walk_state() == patterns_walk(old(self).env(), old(self).walk_state(), ps@.take(i as int)),
                self.used() == old(self).used().union(patterns_uses(ps@.take(i as int))),
        {
            let ghost s1 = *self;
            self.handle_match_pattern(&ps[i]);
            proof {
                Self::lemma_walked_trans(old(self), &s1, self);
                assert(ps@.take(i + 1).subrange(0, i as int) =~= ps@.take(i as int));
            }
            assert(self.used() =~= old(self).used().union(patterns_uses(ps@.take(i + 1))));
        }
        assert(ps@.take(ps.len() as int) =~= ps@);
    }

    /// The fixtures that the `usefixtures` marks among some decorators name
    /// are used.
    fn track_decorators(&mut self, ds: &Vec<Decorator>)
        requires
            old(self).wf(),
        ensures
            final(self).walked_from(old(self)),
            final(self).walk_state() == old(self).walk_state(),
            final(self).used() == old(self).used().union(decorators_fixture_uses(ds@)),
            final(self).class_records() == old(self).class_records(),
            forall|k: DefinedKind| #[trigger] final(self).defined(k) == old(self).defined(k),
    {
        let ghost mut partial: Set<Seq<char>> = Set::empty();
        for i in 0..ds.len()
            invariant
                self.walked_from(old(self)),
                self.walk_state() == old(self).walk_state(),
                self.used() == old(self).used().union(partial),
                self.class_records() == old(self).class_records(),
                forall|k: DefinedKind| #[trigger] self.defined(k) == old(self).defined(k),
                forall|v: Seq<char>| partial.contains(v) ==> decorators_fixture_uses(ds@).contains(v),
                forall|j: int, v: Seq<char>|
                    0 <= j < i && #[trigger] usefixtures_uses(ds@[j].expression).contains(v)
                        ==> partial.contains(v),
        {
            let ghost s1 = *self;
            self.track_usefixtures_mark(&ds[i].expression);
            proof {
                Self::lemma_walked_trans(old(self), &s1, self);
                partial = partial.union(usefixtures_uses(ds@[i as int].expression));
            }
            assert(self.used() =~= old(self).used().union(partial));
        }
        assert(partial =~= decorators_fixture_uses(ds@));
    }

    /// Walks the expressions of some decorators.
    fn walk_decorator_exprs(&mut self, ds: &Vec<Decorator>)
        requires
            old(self).wf(),
        ensures
            final(self).walked_from(old(self)),
            final(self).walk_state() == decorators_walk(old(self).env(), old(self).walk_state(), ds@),
            final(self).used() == old(self).used().union(decorators_expr_uses(ds@)),
        decreases ds,
    {
        for i in 0..ds.len()
            invariant
                self.walked_from(old(self)),
                self.walk_state() == decorators_walk(old(self).env(), old(self).walk_state(), ds@.take(i as int)),
                self.used() == old(self).used().union(decorators_expr_uses(ds@.take(i as int))),
        {
            let ghost s1 = *self;
            self.walk_expr(&ds[i].expression);
            proof {
                Self::lemma_walked_trans(old(self), &s1, self);
                assert(ds@.take(i + 1).subrange(0, i as int) =~= ds@.take(i as int));
            }
            assert(self.used() =~= old(self).used().union(decorators_expr_uses(ds@.take(i + 1))));
        }
        assert(ds@.take(ds.len() as int) =~= ds@);
    }

    /// Walks some statements in order.
    fn walk_stmts(&mut self, ss: &Vec<Stmt>)
        requires
            old(self).wf(),
        ensures
            final(self).walked_from(old(self)),
            final(self).walk_state() == stmts_walk(old(self).env(), old(self).walk_state(), ss@),
            final(self).used() == old(self).used().union(stmts_uses(ss@)),
        decreases ss,
    {
        for i in 0..ss.len()
            invariant
                self.walked_from(old(self)),
                self.walk_state() == stmts_walk(old(self).env(), old(self).walk_state(), ss@.take(i as int)),
                self.used() == old(self).used().union(stmts_uses(ss@.take(i as int))),
        {
            let ghost s1 = *self;
            self.walk_stmt(&ss[i]);
            proof {
                Self::lemma_walked_trans(old(self), &s1, self);
                assert(ss@.take(i + 1).subrange(0, i as int) =~= ss@.take(i as int));
            }
            assert(self.used() =~= old(self).used().union(stmts_uses(ss@.take(i + 1))));
        }
        assert(ss@.take(ss.len() as int) =~= ss@);
    }

    /// Walks the `elif`/`else` clauses of an `if`.
    fn walk_clauses(&mut self, cs: &Vec<ElifElseClause>)
        requires
            old(self).wf(),
        ensures
            final(self).walked_from(old(self)),
            final(self).walk_state() == clauses_walk(old(self).env(), old(self).walk_state(), cs@),
            final(self).used() == old(self).used().union(clauses_uses(cs@)),
        decreases cs,
    {
        for i in 0..cs.len()
            invariant
                self.walked_from(old(self)),
                self.walk_state() == clauses_walk(old(self).env(), old(self).walk_state(), cs@.take(i as int)),
                self.used() == old(self).used().union(clauses_uses(cs@.take(i as int))),
        {
            let ghost s1 = *self;
            match &cs[i].test {
                Some(t) => {
                    self.walk_expr(t);
                },
                None => {},
            }
            let ghost s2 = *self;
            self.walk_stmts(&cs[i].body);
            proof {
                Self::lemma_walked_trans(old(self), &s1, &s2);
                Self::lemma_walked_trans(old(self), &s2, self);
                assert(cs@.take(i + 1).subrange(0, i as int) =~= cs@.take(i as int));
            }
            assert(self.used() =~= old(self).used().union(clauses_uses(cs@.take(i + 1))));
        }
        assert(cs@.take(cs.len() as int) =~= cs@);
    }

    /// Walks the items of a `with`.
    fn walk_with_items(&mut self, items: &Vec<WithItem>)
        requires
            old(self).wf(),
        ensures
            final(self).walked_from(old(self)),
            final(self).walk_state() == with_items_walk(old(self).env(), old(self).walk_state(), items@),
            final(self).used() == old(self).used().union(with_items_uses(items@)),
        decreases items,
    {
        for i in 0..items.len()
            invariant
                self.walked_from(old(self)),
                self.walk_state() == with_items_walk(old(self).env(), old(self).walk_state(), items@.take(i as int)),
                self.used() == old(self).used().union(with_items_uses(items@.take(i as int))),
        {
            let ghost s1 = *self;
            self.walk_expr(&items[i].context_expr);
            let ghost s2 = *self;
            match &items[i].optional_vars {
                Some(v) => {
                    self.walk_expr(v);
                },
                None => {},
            }
            proof {
                Self::lemma_walked_trans(old(self), &s1, &s2);
                Self::lemma_walked_trans(old(self), &s2, self);
                assert(items@.take(i + 1).subrange(0, i as int) =~= items@.take(i as int));
            }
            assert(self.used() =~= old(self).used().union(with_items_uses(items@.take(i + 1))));
        }
        assert(items@.take(items.len() as int) =~= items@);
    }

    /// Walks the cases of a `match`.
    fn walk_cases(&mut self, cs: &Vec<MatchCase>)
        requires
            old(self).wf(),
        ensures
            final(self).walked_from(old(self)),
            final(self).walk_state() == cases_walk(old(self).env(), old(self).walk_state(), cs@),
            final(self).used() == old(self).used().union(cases_uses(cs@)),
        decreases cs,
    {
        for i in 0..cs.len()
            invariant
                self.walked_from(old(self)),
                self.walk_state() == cases_walk(old(self).env(), old(self).walk_state(), cs@.take(i as int)),
                self.used() == old(self).used().union(cases_uses(cs@.take(i as int))),
        {
            let ghost s1 = *self;
            self.handle_match_pattern(&cs[i].pattern);
            let ghost s2 = *self;
            match &cs[i].guard {
                Some(g) => {
                    self.walk_expr(g);
                },
                None => {},
            }
            let ghost s3 = *self;
            self.walk_stmts(&cs[i].body);
            proof {
                Self::lemma_walked_trans(old(self), &s1, &s2);
                Self::lemma_walked_trans(old(self), &s2, &s3);
                Self::lemma_walked_trans(old(self), &s3, self);
                assert(cs@.take(i + 1).subrange(0, i as int) =~= cs@.take(i as int));
            }
            assert(self.used() =~= old(self).used().union(cases_uses(cs@.take(i + 1))));
        }
        assert(cs@.take(cs.len() as int) =~= cs@);
    }

    /// Walks the `except` clauses of a `try`.
    fn walk_handlers(&mut self, hs: &Vec<ExceptHandler>)
        requires
            old(self).wf(),
        ensures
            final(self).walked_from(old(self)),
            final(self).walk_state() == handlers_walk(old(self).env(), old(self).walk_state(), hs@),
            final(self).used() == old(self).used().union(handlers_uses(hs@)),
        decreases hs,
    {
        for i in 0..hs.len()
            invariant
                self.walked_from(old(self)),
                self.walk_state() == handlers_walk(old(self).env(), old(self).walk_state(), hs@.take(i as int)),
                self.used() == old(self).used().union(handlers_uses(hs@.take(i as int))),
        {
            let ghost s1 = *self;
            match &hs[i].type_ {
                Some(t) => {
                    self.walk_expr(t);
                },
                None => {},
            }
            let ghost s2 = *self;
            self.walk_stmts(&hs[i].body);
            proof {
                Self::lemma_walked_trans(old(self), &s1, &s2);
                Self::lemma_walked_trans(old(self), &s2, self);
                assert(hs@.take(i + 1).subrange(0, i as int) =~= hs@.take(i as int));
            }
            assert(self.used() =~= old(self).used().union(handlers_uses(hs@.take(i + 1))));
        }
        assert(hs@.take(hs.len() as int) =~= hs@);
    }

    /// The string literals that `__all__ = [...]` or `(...)` lists are used.
    fn add_all_listing(&mut self, targets: &Vec<Expr>, value: &Expr)
        requires
            old(self).wf(),
        ensures
            final(self).walked_from(old(self)),
            final(self).walk_state() == old(self).walk_state(),
            final(self).used() == old(self).used().union(all_listing_uses(targets@, *value)),
    {
        if !assigns_special_variable_all(targets.as_slice()) {
            assert(old(self).used().union(all_listing_uses(targets@, *value)) =~= old(self).used());
            return;
        }
        let elts = match value {
            Expr::List { elts } => elts,
            Expr::Tuple { elts } => elts,
            _ => {
                assert(old(self).used().union(all_listing_uses(targets@, *value)) =~= old(self).used());
                return;
            },
        };
        assert(all_listing_uses(targets@, *value) == string_constants(elts@));
        let ghost mut partial: Set<Seq<char>> = Set::empty();
        for i in 0..elts.len()
            invariant
                self.walked_from(old(self)),
                self.walk_state() == old(self).walk_state(),
                self.used() == old(self).used().union(partial),
                forall|v: Seq<char>| partial.contains(v) ==> string_constants(elts@).contains(v),
                forall|j: int|
                    0 <= j < i && str_constant(#[trigger] elts@[j]) is Some ==> partial.contains(
                        str_constant(elts@[j])->0,
                    ),
        {
            match as_str_constant(&elts[i]) {
                Some(s) => {
                    let ghost s1 = *self;
                    self.add_used_name(s.as_str());
                    proof {
                        Self::lemma_walked_trans(old(self), &s1, self);
                        partial = partial.insert(s@);
                    }
                },
                None => {},
            }
        }
        assert(partial =~= string_constants(elts@));
    }

    /// Walks a statement: records the names it uses and the definitions it
    /// makes, with the scope and the suppression of definitions as they were
    /// afterwards.
    #[verifier::rlimit(40)]
    fn walk_stmt(&mut self, stmt: &Stmt)
        requires
            old(self).wf(),
        ensures
            final(self).walked_from(old(self)),
            final(self).walk_state() == stmt_walk(old(self).env(), old(self).walk_state(), *stmt),
            final(self).used() == old(self).used().union(stmt_uses(*stmt)),
        decreases stmt,
    {
        let ghost s0 = *self;
        match stmt {
            Stmt::ClassDef { name, bases, keywords, decorator_list, body, start, end } => {
                let inherits_from = self.compute_inherits_from(bases);
                let ghost inh: Option<Seq<Seq<char>>> = if inherits_from is Some {
                    Some(string_views(inherits_from->0@))
                } else {
                    None
                };
                assert(inh == spec_inherits_from(s0.walk_state().class_records, s0.walk_state().scope, bases@));
                let mut should_turn_off = false;
                let matches_ignore_defs = match_any(
                    name.as_str(),
                    self.args.ignore_definitions.as_slice(),
                    true,
                ) || match &inherits_from {
                    Some(chain) => match_many(
                        chain.as_slice(),
                        self.args.ignore_definitions_if_inherits_from.as_slice(),
                        true,
                    ),
                    None => false,
                };
                if matches_ignore_defs && !self.should_ignore_new_definitions {
                    self.should_ignore_new_definitions = true;
                    should_turn_off = true;
                }
                let ghost s1 = *self;
                let ghost off1 = should_turn_off;
                assert(matches_ignore_defs == class_ignored(s0.env(), name@, inh));
                assert(off1 == (class_ignored(s0.env(), name@, inh) && !s0.walk_state().ignoring));
                assert(s1.walk_state() =~= (if off1 {
                    s0.walk_state().with_ignoring(true)
                } else {
                    s0.walk_state()
                }));
                self.track_decorators(decorator_list);
                let ghost s2 = *self;
                let chain_copy = match &inherits_from {
                    Some(c) => Some(copy_strings(c)),
                    None => None,
                };
                let ignored = ignore_class(self.cwd.as_str(), self.filename.as_str(), name.as_str());
                self.push_definition(
                    DefinedKind::Class,
                    name.as_str(),
                    *start,
                    *end,
                    decorator_list.as_slice(),
                    ignored,
                    chain_copy,
                );
                let ghost s3 = *self;
                self.scope_parts.push(name.clone());
                self.scope_kinds.push(ScopeKind::Class);
                let ghost s3b = *self;
                assert(s3b.walk_state() =~= s3.walk_state().enter(name@, ScopeKind::Class));
                if !self.should_ignore_new_definitions {
                    if let Some(chain) = &inherits_from {
                        if match_many(
                            chain.as_slice(),
                            self.args.ignore_bodies_if_inherits_from.as_slice(),
                            true,
                        ) {
                            self.should_ignore_new_definitions = true;
                            should_turn_off = true;
                        }
                    }
                }
                let ghost s4 = *self;
                let ghost off2 = should_turn_off && !off1;
                assert(off2 == (!s3b.walk_state().ignoring && body_ignored(s0.env(), inh)));
                assert(s4.walk_state() =~= (if off2 {
                    s3b.walk_state().with_ignoring(true)
                } else {
                    s3b.walk_state()
                }));
                assert(should_turn_off ==> !s0.ignoring());
                assert(!should_turn_off ==> s4.ignoring() == s0.ignoring());
                self.walk_decorator_exprs(decorator_list);
                let ghost s5 = *self;
                self.walk_exprs(bases);
                let ghost s6 = *self;
                self.walk_keywords(keywords);
                let ghost s7 = *self;
                self.walk_stmts(body);
                let ghost s8 = *self;
                proof {
                    Self::lemma_walked_trans(&s4, &s5, &s6);
                    Self::lemma_walked_trans(&s4, &s6, &s7);
                    Self::lemma_walked_trans(&s4, &s7, &s8);
                }
                if should_turn_off {
                    self.should_ignore_new_definitions = false;
                }
                self.scope_parts.pop();
                self.scope_kinds.pop();
                proof {
                    assert(s1.progressed_from(&s0));
                    assert(s4.progressed_from(&s3));
                    assert(self.progressed_from(&s8));
                    Self::lemma_progressed_trans(&s0, &s1, &s2);
                    Self::lemma_progressed_trans(&s0, &s2, &s3);
                    Self::lemma_progressed_trans(&s0, &s3, &s4);
                    Self::lemma_progressed_trans(&s0, &s4, &s8);
                    Self::lemma_progressed_trans(&s0, &s8, self);
                    assert(string_views(s4.scope_parts@) =~= string_views(s0.scope_parts@).push(name@));
                    assert(string_views(self.scope_parts@) =~= string_views(s8.scope_parts@).drop_last());
                    assert(self.scope_path() =~= s0.scope_path());
                    assert(self.scope_kinds@ =~= s0.scope_kinds@);
                    assert(self.walk_state() =~= (if off1 || off2 {
                        s8.walk_state().with_ignoring(false)
                    } else {
                        s8.walk_state()
                    }).leave());
                }
            },
            Stmt::FunctionDef { name, parameters, decorator_list, return_annotation, body, start, end } => {
                self.walk_function_like(name.as_str(), parameters, decorator_list, *start, *end);
                let ghost s1 = *self;
                self.scope_parts.push(name.clone());
                self.scope_kinds.push(ScopeKind::Function);
                let ghost s2 = *self;
                assert(s2.walk_state() =~= s1.walk_state().enter(name@, ScopeKind::Function));
                self.walk_decorator_exprs(decorator_list);
                let ghost s3 = *self;
                self.walk_parameters(parameters);
                let ghost s4 = *self;
                match return_annotation {
                    Some(r) => {
                        self.walk_expr(r);
                    },
                    None => {},
                }
                let ghost s5 = *self;
                self.walk_stmts(body);
                let ghost s6 = *self;
                self.scope_parts.pop();
                self.scope_kinds.pop();
                proof {
                    Self::lemma_walked_trans(&s2, &s3, &s4);
                    Self::lemma_walked_trans(&s2, &s4, &s5);
                    Self::lemma_walked_trans(&s2, &s5, &s6);
                    assert(s2.progressed_from(&s1));
                    assert(self.progressed_from(&s6));
                    Self::lemma_progressed_trans(&s0, &s1, &s2);
                    Self::lemma_progressed_trans(&s0, &s2, &s6);
                    Self::lemma_progressed_trans(&s0, &s6, self);
                    assert(string_views(s2.scope_parts@) =~= string_views(s0.scope_parts@).push(name@));
                    assert(string_views(self.scope_parts@) =~= string_views(s6.scope_parts@).drop_last());
                    assert(self.scope_path() =~= s0.scope_path());
                    assert(self.scope_kinds@ =~= s0.scope_kinds@);
                    assert(self.walk_state() =~= s6.walk_state().leave());
                }
            },
            Stmt::Import { names } => {
                self.add_aliases(names.as_slice());
            },
            Stmt::ImportFrom { module, names } => {
                let future = match module {
                    Some(m) => str_eq(m.as_str(), "__future__"),
                    None => false,
                };
                if !future {
                    self.add_aliases(names.as_slice());
                }
            },
            Stmt::Assign { targets, value } => {
                self.add_all_listing(targets, value);
                let ghost s1 = *self;
                self.walk_exprs(targets);
                let ghost s2 = *self;
                self.walk_expr(value);
                proof {
                    Self::lemma_walked_trans(&s0, &s1, &s2);
                    Self::lemma_walked_trans(&s0, &s2, self);
                }
            },
            Stmt::AnnAssign { target, annotation, value } => {
                self.walk_expr(target);
                let ghost s1 = *self;
                self.walk_expr(annotation);
                let ghost s2 = *self;
                match value {
                    Some(v) => {
                        self.walk_expr(v);
                    },
                    None => {},
                }
                proof {
                    Self::lemma_walked_trans(&s0, &s1, &s2);
                    Self::lemma_walked_trans(&s0, &s2, self);
                }
            },
            Stmt::AugAssign { target, value } => {
                self.walk_expr(target);
                let ghost s1 = *self;
                self.walk_expr(value);
                proof {
                    Self::lemma_walked_trans(&s0, &s1, self);
                }
            },
            Stmt::Return { value } => {
                match value {
                    Some(v) => {
                        self.walk_expr(v);
                    },
                    None => {},
                }
            },
            Stmt::Delete { targets } => {
                self.walk_exprs(targets);
            },
            Stmt::For { target, iter, body, orelse } => {
                self.walk_expr(target);
                let ghost s1 = *self;
                self.walk_expr(iter);
                let ghost s2 = *self;
                self.walk_stmts(body);
                let ghost s3 = *self;
                self.walk_stmts(orelse);
                proof {
                    Self::lemma_walked_trans(&s0, &s1, &s2);
                    Self::lemma_walked_trans(&s0, &s2, &s3);
                    Self::lemma_walked_trans(&s0, &s3, self);
                }
            },
            Stmt::While { test, body, orelse } => {
                self.walk_expr(test);
                let ghost s1 = *self;
                self.walk_stmts(body);
                let ghost s2 = *self;
                self.walk_stmts(orelse);
                proof {
                    Self::lemma_walked_trans(&s0, &s1, &s2);
                    Self::lemma_walked_trans(&s0, &s2, self);
                }
            },
            Stmt::If { test, body, elif_else_clauses } => {
                self.walk_expr(test);
                let ghost s1 = *self;
                self.walk_stmts(body);
                let ghost s2 = *self;
                self.walk_clauses(elif_else_clauses);
                proof {
                    Self::lemma_walked_trans(&s0, &s1, &s2);
                    Self::lemma_walked_trans(&s0, &s2, self);
                }
            },
            Stmt::With { items, body } => {
                self.walk_with_items(items);
                let ghost s1 = *self;
                self.walk_stmts(body);
                proof {
                    Self::lemma_walked_trans(&s0, &s1, self);
                }
            },
            Stmt::Match { subject, cases } => {
                self.walk_expr(subject);
                let ghost s1 = *self;
                self.walk_cases(cases);
                proof {
                    Self::lemma_walked_trans(&s0, &s1, self);
                }
            },
            Stmt::Raise { exc, cause } => {
                match exc {
                    Some(x) => {
                        self.walk_expr(x);
                    },
                    None => {},
                }
                let ghost s1 = *self;
                match cause {
                    Some(x) => {
                        self.walk_expr(x);
                    },
                    None => {},
                }
                proof {
                    Self::lemma_walked_trans(&s0, &s1, self);
                }
            },
            Stmt::Try { body, handlers, orelse, finalbody } => {
                self.walk_stmts(body);
                let ghost s1 = *self;
                self.walk_handlers(handlers);
                let ghost s2 = *self;
                self.walk_stmts(orelse);
                let ghost s3 = *self;
                self.walk_stmts(finalbody);
                proof {
                    Self::lemma_walked_trans(&s0, &s1, &s2);
                    Self::lemma_walked_trans(&s0, &s2, &s3);
                    Self::lemma_walked_trans(&s0, &s3, self);
                }
            },
            Stmt::Assert { test, msg } => {
                self.walk_expr(test);
                let ghost s1 = *self;
                match msg {
                    Some(m) => {
                        self.walk_expr(m);
                    },
                    None => {},
                }
                proof {
                    Self::lemma_walked_trans(&s0, &s1, self);
                }
            },
            Stmt::ExprStmt { value } => {
                self.walk_expr(value);
            },
            Stmt::TypeAlias { value } => {
                self.walk_expr(value);
            },
            _ => {},
        }
        assert(self.used() =~= old(self).used().union(stmt_uses(*stmt)));
    }

    /// What is reported: the definitions of each kind whose names are never
    /// used (each kind ordered by name, kinds in the order attributes,
    /// classes, functions, imports, methods, properties, variables), then the
    /// empty files, all ordered (stably) by file and line.
    pub open spec fn report(&self) -> Seq<CodeItemView> {
        stable_sort(
            unused_among(self.defined(DefinedKind::Attribute), self.used()) + unused_among(
                self.defined(DefinedKind::Class),
                self.used(),
            ) + unused_among(self.defined(DefinedKind::Function), self.used()) + unused_among(
                self.defined(DefinedKind::Import),
                self.used(),
            ) + unused_among(self.defined(DefinedKind::Method), self.used()) + unused_among(
                self.defined(DefinedKind::Property),
                self.used(),
            ) + unused_among(self.defined(DefinedKind::Variable), self.used()) + item_views(
                self.empty_files(),
            ),
            position_order(),
        )
    }

    /// The report: every definition whose name is never used, and every
    /// empty file, ordered by file and line.
    pub fn get_unused_code_items(&self) -> (r: Vec<CodeItem>)
        ensures
            item_views(r@) == self.report(),
    {
        let mut all = unused_of(&self.defined_attrs, &self.used_names);
        let mut part = unused_of(&self.defined_classes, &self.used_names);
        all.append(&mut part);
        let mut part = unused_of(&self.defined_funcs, &self.used_names);
        all.append(&mut part);
        let mut part = unused_of(&self.defined_imports, &self.used_names);
        all.append(&mut part);
        let mut part = unused_of(&self.defined_methods, &self.used_names);
        all.append(&mut part);
        let mut part = unused_of(&self.defined_props, &self.used_names);
        all.append(&mut part);
        let mut part = unused_of(&self.defined_vars, &self.used_names);
        all.append(&mut part);
        let mut files = copy_items(&self.unused_file);
        all.append(&mut files);
        let ghost expected = unused_among(self.defined(DefinedKind::Attribute), self.used()) + unused_among(
            self.defined(DefinedKind::Class),
            self.used(),
        ) + unused_among(self.defined(DefinedKind::Function), self.used()) + unused_among(
            self.defined(DefinedKind::Import),
            self.used(),
        ) + unused_among(self.defined(DefinedKind::Method), self.used()) + unused_among(
            self.defined(DefinedKind::Property),
            self.used(),
        ) + unused_among(self.defined(DefinedKind::Variable), self.used()) + item_views(
            self.empty_files(),
        );
        assert(item_views(all@) =~= expected);
        sort_items(all, true)
    }

    /// A visitor that has seen nothing yet.
    pub fn new(args: &'a Args, tach_index: &'a TachIndex, cwd: &str) -> (r: Self)
        ensures
            r.wf(),
            r.options() == *args,
            r.tach() == *tach_index,
            r.working_dir() == cwd@,
            r.used() == Set::<Seq<char>>::empty(),
            forall|k: DefinedKind| #[trigger] r.defined(k) == Seq::<CodeItem>::empty(),
            r.empty_files() == Seq::<CodeItem>::empty(),
            r.failed_files() == Seq::<Seq<char>>::empty(),
            r.class_records() == Seq::<ScopeRecord>::empty(),
            r.scope_path() == Seq::<Seq<char>>::empty(),
            r.scope_kind_stack() == Seq::<ScopeKind>::empty(),
            !r.ignoring(),
    {
        let source: Vec<u8> = Vec::new();
        let line_index = LineIndex::from_bytes(source.as_slice());
        let r = DeadCodeVisitor {
            args,
            tach_index,
            cwd: cwd.to_owned(),
            defined_attrs: Vec::new(),
            defined_classes: Vec::new(),
            defined_funcs: Vec::new(),
            defined_imports: Vec::new(),
            defined_methods: Vec::new(),
            defined_props: Vec::new(),
            defined_vars: Vec::new(),
            unused_file: Vec::new(),
            parse_failures: Vec::new(),
            used_names: NameSet::new(),
            filename: String::new(),
            scope_parts: Vec::new(),
            scope_kinds: Vec::new(),
            should_ignore_new_definitions: false,
            noqa_lines: NoqaLines::new(),
            scopes: NestedScope::new(),
            line_index,
            source,
        };
        assert(r.failed_files() =~= Seq::<Seq<char>>::empty());
        assert(r.scope_path() =~= Seq::<Seq<char>>::empty());
        r
    }

    /// Starts on a file: sets its module scope and, unless the file holds
    /// nothing but whitespace (and is not a `__*__.py` file), its `# noqa`
    /// lines and line index, and gives back the text to parse. An empty file
    /// is recorded as such instead; a text too long for 32-bit offsets is
    /// recorded as a file that could not be parsed.
    pub fn prepare_file(&mut self, file_path: &str, file_content: &[u8]) -> (r: Option<String>)
        requires
            old(self).wf(),
        ensures
            final(self).wf(),
            final(self).scope_path() == seq![module_name_of(base_name(file_path@))],
            final(self).scope_kind_stack() == Seq::<ScopeKind>::empty(),
            final(self).ignoring() == old(self).ignoring(),
            final(self).used() == old(self).used(),
            forall|k: DefinedKind| #[trigger] final(self).defined(k) == old(self).defined(k),
            final(self).class_records() == old(self).class_records(),
            final(self).options() == old(self).options(),
            final(self).tach() == old(self).tach(),
            final(self).working_dir() == old(self).working_dir(),
            !is_analysed(file_path@, file_content@) ==> {
                &&& r is None
                &&& final(self).failed_files() == old(self).failed_files()
                &&& final(self).empty_files().len() == old(self).empty_files().len() + 1
                &&& final(self).empty_files().drop_last() == old(self).empty_files()
                &&& final(self).empty_files().last()@ == (CodeItemView {
                    name: base_name(file_path@),
                    type_: UnusedCodeType::UnusedFile,
                    filename: file_path@,
                    code_parts: Seq::empty(),
                    scope: None,
                    inherits_from: None,
                    name_line: None,
                    name_column: None,
                    message: "Empty file"@,
                    number_of_uses: 0,
                })
            },
            is_analysed(file_path@, file_content@) ==> {
                &&& final(self).empty_files() == old(self).empty_files()
                &&& (r is None <==> (file_content@.len() >= 0xffff_ffff
                    || vstd::utf8::encode_utf8(utf8_lossy_result(file_content@)).len()
                    >= 0xffff_ffff))
                &&& match r {
                    Some(text) => {
                        &&& text@ == utf8_lossy_result(file_content@)
                        &&& final(self).source_bytes() == vstd::utf8::encode_utf8(text@)
                        &&& final(self).current_file() == file_path@
                        &&& final(self).failed_files() == old(self).failed_files()
                        &&& forall|c: Seq<char>, n: u32|
                            #[trigger] final(self).noqa_suppresses(c, n) == noqa_on_line(file_content@, c, n)
                    },
                    None => final(self).failed_files() == old(self).failed_files().push(file_path@),
                }
            },
    {
        let filename = match file_name(file_path) {
            Some(n) => n,
            None => file_path.to_owned(),
        };
        let fc = chars_of(filename.as_str());
        let mut k = fc.len();
        assert(fc@.take(k as int) =~= fc@);
        while k > 0 && fc[k - 1] != '.'
            invariant
                k <= fc.len(),
                last_dot(fc@) == last_dot(fc@.take(k as int)),
            decreases k,
        {
            assert(fc@.take(k as int).drop_last() =~= fc@.take(k - 1));
            k = k - 1;
        }
        let module_name = if k > 0 {
            assert(fc@.take(k as int).drop_last() =~= fc@.take(k - 1));
            string_from_chars(crate::utils::text::chars_range(fc.as_slice(), 0, k - 1).as_slice())
        } else {
            filename.clone()
        };
        assert(module_name@ == module_name_of(base_name(file_path@))) by {
            if k > 0 {
                assert(fc@.take(k - 1) =~= fc@.take(k as int).take(k - 1));
            }
        }
        let mut parts: Vec<String> = Vec::new();
        parts.push(module_name);
        self.scope_parts = parts;
        self.scope_kinds = Vec::new();
        assert(self.scope_path() =~= seq![module_name_of(base_name(file_path@))]);
        let under = vec!['_', '_'];
        let dunder_py = vec!['_', '_', '.', 'p', 'y'];
        proof {
            reveal_strlit("__.py");
            assert(dunder_py@ =~= "__.py"@);
            assert(under@ =~= seq!['_', '_']);
        }
        let is_dunder = starts_with_chars(fc.as_slice(), under.as_slice()) && ends_with_chars(
            fc.as_slice(),
            dunder_py.as_slice(),
        );
        let content_str = utf8_lossy(file_content);
        let trimmed = trim(content_str.as_str());
        let tc = chars_of(trimmed.as_str());
        if tc.len() > 0 || is_dunder {
            let text_bytes = crate::utils::bytes::copy_bytes(content_str.as_str().as_bytes());
            if file_content.len() >= 0xffff_ffff || text_bytes.len() >= 0xffff_ffff {
                self.parse_failures.push(file_path.to_owned());
                assert(self.failed_files() =~= old(self).failed_files().push(file_path@));
                return None;
            }
            self.noqa_lines = parse_noqa(file_content);
            self.filename = file_path.to_owned();
            self.line_index = LineIndex::from_bytes(text_bytes.as_slice());
            self.source = text_bytes;
            Some(content_str)
        } else {
            let item = CodeItem::new(
                filename,
                UnusedCodeType::UnusedFile,
                file_path.to_owned(),
                Vec::new(),
                None,
                None,
                None,
                None,
                "Empty file".to_owned(),
            );
            self.unused_file.push(item);
            None
        }
    }

    /// Finishes a file: walks its statements (recording the names they use
    /// and the definitions they make, see `stmts_walk`), or records that it
    /// could not be parsed.
    pub fn visit_module(&mut self, module: Option<&Vec<Stmt>>)
        requires
            old(self).wf(),
        ensures
            match module {
                Some(m) => {
                    &&& final(self).walked_from(old(self))
                    &&& final(self).used() == old(self).used().union(stmts_uses(m@))
                    &&& final(self).walk_state() == stmts_walk(old(self).env(), old(self).walk_state(), m@)
                },
                None => {
                    &&& final(self).wf()
                    &&& final(self).walk_state() == old(self).walk_state()
                    &&& final(self).failed_files() == old(self).failed_files().push(
                        old(self).current_file(),
                    )
                    &&& final(self).used() == old(self).used()
                    &&& forall|k: DefinedKind| #[trigger] final(self).defined(k) == old(self).defined(k)
                    &&& final(self).empty_files() == old(self).empty_files()
                    &&& final(self).class_records() == old(self).class_records()
                    &&& final(self).options() == old(self).options()
                    &&& final(self).tach() == old(self).tach()
                    &&& final(self).working_dir() == old(self).working_dir()
                },
            },
    {
        match module {
            Some(m) => {
                self.walk_stmts(m);
            },
            None => {
                let f = self.filename.clone();
                self.parse_failures.push(f);
                assert(self.failed_files() =~= old(self).failed_files().push(old(self).current_file()));
            },
        }
    }
}

/// A name used by the key or value of one item is used by the dict display.
proof fn lemma_dict_items_uses_contains(items: Seq<DictItem>, i: int, v: Seq<char>)
    requires
        0 <= i < items.len(),
        (items[i].key is Some && expr_uses(items[i].key->0).contains(v)) || expr_uses(
            items[i].value,
        ).contains(v),
    ensures
        dict_items_uses(items).contains(v),
    decreases items.len(),
{
    if i < items.len() - 1 {
        lemma_dict_items_uses_contains(items.subrange(0, items.len() - 1), i, v);
    }
}

/// A name the dict display uses is used by some item's key or value.
proof fn lemma_dict_items_uses_witness(items: Seq<DictItem>, v: Seq<char>) -> (j: int)
    requires
        dict_items_uses(items).contains(v),
    ensures
        0 <= j < items.len(),
        (items[j].key is Some && expr_uses(items[j].key->0).contains(v)) || expr_uses(items[j].value).contains(v),
    decreases items.len(),
{
    let rest = items.subrange(0, items.len() - 1);
    if dict_items_uses(rest).contains(v) {
        let j = lemma_dict_items_uses_witness(rest, v);
        assert(rest[j] == items[j]);
        j
    } else {
        (items.len() - 1) as int
    }
}

/// A name one keyword of a class pattern uses is used by them all.
proof fn lemma_pattern_keywords_uses_contains(ks: Seq<PatternKeyword>, i: int, v: Seq<char>)
    requires
        0 <= i < ks.len(),
        ks[i].attr@ == v || pattern_uses(ks[i].pattern).contains(v),
    ensures
        pattern_keywords_uses(ks).contains(v),
    decreases ks.len(),
{
    if i < ks.len() - 1 {
        lemma_pattern_keywords_uses_contains(ks.subrange(0, ks.len() - 1), i, v);
    }
}

/// A name the keywords of a class pattern use is an attribute name of one,
/// or used by its pattern.
proof fn lemma_pattern_keywords_uses_witness(ks: Seq<PatternKeyword>, v: Seq<char>) -> (j: int)
    requires
        pattern_keywords_uses(ks).contains(v),
    ensures
        0 <= j < ks.len(),
        ks[j].attr@ == v || pattern_uses(ks[j].pattern).contains(v),
    decreases ks.len(),
{
    let rest = ks.subrange(0, ks.len() - 1);
    if pattern_keywords_uses(rest).contains(v) {
        let j = lemma_pattern_keywords_uses_witness(rest, v);
        assert(rest[j] == ks[j]);
        j
    } else {
        (ks.len() - 1) as int
    }
}

/// An element is in a prefix one longer exactly when it is in the shorter
/// prefix or is the added element.
proof fn lemma_take_contains<T>(s: Seq<T>, i: int, x: T)
    requires
        0 <= i < s.len(),
    ensures
        s.take(i + 1).contains(x) == (s.take(i).contains(x) || s[i] == x),
{
    if s[i] == x {
        assert(s.take(i + 1)[i] == x);
    }
    if s.take(i).contains(x) {
        let u = s.take(i);
        let k = choose|k: int| 0 <= k < u.len() && #[trigger] u[k] == x;
        assert(s.take(i + 1)[k] == x);
    }
    let t = s.take(i + 1);
    if t.contains(x) {
        let k = choose|k: int| 0 <= k < t.len() && #[trigger] t[k] == x;
        if k < i {
            assert(s.take(i)[k] == x);
        }
    }
}

/// Copies of some items.
fn copy_items(items: &Vec<CodeItem>) -> (r: Vec<CodeItem>)
    ensures
        item_views(r@) == item_views(items@),
{
    let mut out: Vec<CodeItem> = Vec::new();
    for i in 0..items.len()
        invariant
            item_views(out@) == item_views(items@.take(i as int)),
    {
        let ghost before = item_views(out@);
        let c = items[i].duplicate();
        out.push(c);
        assert(item_views(out@) =~= before.push(items@[i as int]@));
        assert(item_views(items@.take(i + 1)) =~= item_views(items@.take(i as int)).push(items@[i as int]@));
    }
    assert(items@.take(items.len() as int) =~= items@);
    out
}

/// Whether `a` may stay before `b` in the given report order.
fn item_le(a: &CodeItem, b: &CodeItem, by_position: bool) -> (r: bool)
    ensures
        r == (item_order(by_position))(a@, b@),
{
    if by_position {
        let (lt, eq) = path_compare(b.filename.as_str(), a.filename.as_str());
        let la = match a.name_line {
            Some(l) => l,
            None => 0,
        };
        let lb = match b.name_line {
            Some(l) => l,
            None => 0,
        };
        !(lt || (eq && lb < la))
    } else {
        let na = to_lowercase(a.name.as_str());
        let nb = to_lowercase(b.name.as_str());
        let ca = chars_of(na.as_str());
        let cb = chars_of(nb.as_str());
        !chars_less(cb.as_slice(), ca.as_slice())
    }
}

/// Stable insertion sort in one of the report orders.
fn sort_items(items: Vec<CodeItem>, by_position: bool) -> (r: Vec<CodeItem>)
    ensures
        item_views(r@) == stable_sort(item_views(items@), item_order(by_position)),
{
    let ghost iv = item_views(items@);
    let ghost le = item_order(by_position);
    let n = items.len();
    let mut rest = items;
    let mut out: Vec<CodeItem> = Vec::new();
    let mut i: usize = 0;
    assert(iv.skip(0) =~= iv);
    while i < n
        invariant
            i <= n,
            n == iv.len(),
            le == item_order(by_position),
            rest@.len() == n - i,
            item_views(rest@) == iv.skip(i as int),
            item_views(out@) == stable_sort(iv.take(i as int), le),
        decreases n - i,
    {
        let ghost r0 = rest@;
        let x = rest.remove(0);
        assert(x@ == item_views(r0)[0]);
        assert(item_views(rest@) =~= item_views(r0).skip(1));
        assert(iv.skip(i as int).skip(1) =~= iv.skip(i + 1));
        assert(item_views(rest@) =~= iv.skip(i + 1));
        assert(x@ == iv[i as int]);
        let ghost t = item_views(out@);
        proof {
            crate::utils::sorting::lemma_stable_sort_len(iv.take(i as int), le);
        }
        let mut j = out.len();
        while j > 0 && !item_le(&out[j - 1], &x, by_position)
            invariant
                0 <= j <= out.len(),
                t == item_views(out@),
                le == item_order(by_position),
                forall|k: int| j <= k < t.len() ==> !le(#[trigger] t[k], x@),
            decreases j,
        {
            j = j - 1;
        }
        proof {
            lemma_insert_sorted_split(t, x@, le, j as int);
            if j > 0 {
                assert(le(t[j - 1], x@));
                assert(t.take(j as int).last() == t[j - 1]);
            }
            assert(insert_sorted(t.take(j as int), x@, le) =~= t.take(j as int).push(x@));
        }
        out.insert(j, x);
        assert(item_views(out@) =~= t.take(j as int).push(x@) + t.skip(j as int));
        assert(iv.take(i + 1).drop_last() =~= iv.take(i as int));
        assert(iv.take(i + 1).last() == x@);
        i = i + 1;
    }
    assert(iv.take(n as int) =~= iv);
    out
}

/// The items whose names are not in `used`, ordered by name.
fn unused_of(items: &Vec<CodeItem>, used: &NameSet) -> (r: Vec<CodeItem>)
    ensures
        item_views(r@) == unused_among(items@, used.set()),
{
    let ghost pred = not_used_in(used.set());
    let mut kept: Vec<CodeItem> = Vec::new();
    assert(item_views(items@.take(0)).filter(pred) =~= Seq::<CodeItemView>::empty()) by {
        reveal(Seq::filter);
    }
    for i in 0..items.len()
        invariant
            pred == not_used_in(used.set()),
            item_views(kept@) == item_views(items@.take(i as int)).filter(pred),
    {
        let ghost s = item_views(items@.take(i + 1));
        assert(s.drop_last() =~= item_views(items@.take(i as int)));
        assert(s.last() == items@[i as int]@);
        assert(s.filter(pred) == if pred(s.last()) {
            s.drop_last().filter(pred).push(s.last())
        } else {
            s.drop_last().filter(pred)
        }) by {
            reveal(Seq::filter);
        }
        assert(pred(s.last()) == !used.set().contains(items@[i as int].name@));
        if !used.contains(items[i].name.as_str()) {
            let ghost before = item_views(kept@);
            let c = items[i].duplicate();
            kept.push(c);
            assert(item_views(kept@) =~= before.push(items@[i as int]@));
        }
    }
    assert(items@.take(items.len() as int) =~= items@);
    sort_items(kept, false)
}


/// The unused items among `items` are exactly those whose names are not used.
proof fn lemma_unused_among_contains(items: Seq<CodeItem>, used: Set<Seq<char>>, x: CodeItemView)
    ensures
        unused_among(items, used).contains(x) <==> (item_views(items).contains(x) && !used.contains(x.name)),
{
    let s = item_views(items);
    let p = not_used_in(used);
    let f = s.filter(p);
    lemma_stable_sort_contains(f, name_order(), x);
    if f.contains(x) {
        s.lemma_filter_contains_rev(p, x);
        let i = choose|i: int| 0 <= i < f.len() && f[i] == x;
        s.lemma_filter_pred(p, i);
    }
    if s.contains(x) && !used.contains(x.name) {
        let i = choose|i: int| 0 <= i < s.len() && s[i] == x;
        s.lemma_filter_contains(p, i);
    }
}

/// What deadcode reports: a definition (of any kind) exactly when its name
/// is never used, and every empty file; nothing else.
pub proof fn law_report_is_unused_definitions<'a>(v: &DeadCodeVisitor<'a>, x: CodeItemView)
    ensures
        v.report().contains(x) <==> (((exists|k: DefinedKind|
            #[trigger] item_views(v.defined(k)).contains(x)) && !v.used().contains(x.name))
            || item_views(v.empty_files()).contains(x)),
{
    broadcast use vstd::seq_lib::lemma_seq_concat_contains_all_elements;

    let u = v.used();
    let a = unused_among(v.defined(DefinedKind::Attribute), u);
    let c = unused_among(v.defined(DefinedKind::Class), u);
    let f = unused_among(v.defined(DefinedKind::Function), u);
    let i = unused_among(v.defined(DefinedKind::Import), u);
    let m = unused_among(v.defined(DefinedKind::Method), u);
    let p = unused_among(v.defined(DefinedKind::Property), u);
    let w = unused_among(v.defined(DefinedKind::Variable), u);
    let e = item_views(v.empty_files());
    let all = a + c + f + i + m + p + w + e;
    lemma_stable_sort_contains(all, position_order(), x);
    lemma_unused_among_contains(v.defined(DefinedKind::Attribute), u, x);
    lemma_unused_among_contains(v.defined(DefinedKind::Class), u, x);
    lemma_unused_among_contains(v.defined(DefinedKind::Function), u, x);
    lemma_unused_among_contains(v.defined(DefinedKind::Import), u, x);
    lemma_unused_among_contains(v.defined(DefinedKind::Method), u, x);
    lemma_unused_among_contains(v.defined(DefinedKind::Property), u, x);
    lemma_unused_among_contains(v.defined(DefinedKind::Variable), u, x);
    assert(all.contains(x) <==> (a.contains(x) || c.contains(x) || f.contains(x) || i.contains(x)
        || m.contains(x) || p.contains(x) || w.contains(x) || e.contains(x)));
    if exists|k: DefinedKind| #[trigger] item_views(v.defined(k)).contains(x) {
        let k = choose|k: DefinedKind| #[trigger] item_views(v.defined(k)).contains(x);
        match k {
            DefinedKind::Attribute => {},
            DefinedKind::Class => {},
            DefinedKind::Function => {},
            DefinedKind::Import => {},
            DefinedKind::Method => {},
            DefinedKind::Property => {},
            DefinedKind::Variable => {},
        }
    }
    if a.contains(x) {
        assert(item_views(v.defined(DefinedKind::Attribute)).contains(x));
    }
    if c.contains(x) {
        assert(item_views(v.defined(DefinedKind::Class)).contains(x));
    }
    if f.contains(x) {
        assert(item_views(v.defined(DefinedKind::Function)).contains(x));
    }
    if i.contains(x) {
        assert(item_views(v.defined(DefinedKind::Import)).contains(x));
    }
    if m.contains(x) {
        assert(item_views(v.defined(DefinedKind::Method)).contains(x));
    }
    if p.contains(x) {
        assert(item_views(v.defined(DefinedKind::Property)).contains(x));
    }
    if w.contains(x) {
        assert(item_views(v.defined(DefinedKind::Variable)).contains(x));
    }
}

/// No two items each sort before the other.
proof fn lemma_position_before_asymmetric(a: CodeItemView, b: CodeItemView)
    ensures
        !(position_before(a, b) && position_before(b, a)),
{
    let ra = ranked_components(a.filename);
    let rb = ranked_components(b.filename);
    lemma_components_lt_irreflexive(ra);
    if path_lt(a.filename, b.filename) && path_lt(b.filename, a.filename) {
        lemma_components_lt_transitive(ra, rb, ra);
    }
}

/// The report order orders any two items and is transitive.
pub proof fn lemma_position_order_total_preorder()
    ensures
        is_total_preorder(position_order()),
{
    let le = position_order();
    assert forall|a: CodeItemView, b: CodeItemView| #[trigger] le(a, b) || le(b, a) by {
        lemma_position_before_asymmetric(a, b);
    }
    assert forall|a: CodeItemView, b: CodeItemView, c: CodeItemView|
        #[trigger] le(a, b) && #[trigger] le(b, c) implies le(a, c) by {
        let ra = ranked_components(a.filename);
        let rb = ranked_components(b.filename);
        let rc = ranked_components(c.filename);
        lemma_components_lt_total(ra, rb);
        lemma_components_lt_total(rc, ra);
        lemma_components_lt_irreflexive(ra);
        if components_lt(rc, ra) && components_lt(ra, rb) {
            lemma_components_lt_transitive(rc, ra, rb);
        }
        if path_lt(c.filename, a.filename) && path_eq(a.filename, b.filename) {
            assert(path_lt(c.filename, b.filename));
        }
        if path_eq(c.filename, a.filename) && path_lt(a.filename, b.filename) {
            assert(path_lt(c.filename, b.filename));
        }
    }
}

/// The report is ordered by file, in path order, and within a file by line:
/// no item is reported after one that sorts after it.
pub proof fn law_report_is_ordered_by_position<'a>(v: &DeadCodeVisitor<'a>)
    ensures
        forall|i: int, j: int|
            0 <= i < j < v.report().len() ==> !position_before(
                #[trigger] v.report()[j],
                #[trigger] v.report()[i],
            ),
{
    let u = v.used();
    let all = unused_among(v.defined(DefinedKind::Attribute), u) + unused_among(
        v.defined(DefinedKind::Class),
        u,
    ) + unused_among(v.defined(DefinedKind::Function), u) + unused_among(
        v.defined(DefinedKind::Import),
        u,
    ) + unused_among(v.defined(DefinedKind::Method), u) + unused_among(
        v.defined(DefinedKind::Property),
        u,
    ) + unused_among(v.defined(DefinedKind::Variable), u) + item_views(v.empty_files());
    lemma_position_order_total_preorder();
    lemma_stable_sort_sorted(all, position_order());
    assert(v.report() == stable_sort(all, position_order()));
    assert forall|i: int, j: int| 0 <= i < j < v.report().len() implies !position_before(
        #[trigger] v.report()[j],
        #[trigger] v.report()[i],
    ) by {
        assert(position_order()(v.report()[i], v.report()[j]));
    }
}

/// The names that some module bodies use.
pub open spec fn modules_uses(bodies: Seq<Seq<Stmt>>) -> Set<Seq<char>>
    decreases bodies.len(),
{
    if bodies.len() == 0 {
        Set::empty()
    } else {
        modules_uses(bodies.drop_last()).union(stmts_uses(bodies.last()))
    }
}

/// Each body's uses are among the uses of all the bodies.
proof fn lemma_modules_uses_contain(bodies: Seq<Seq<Stmt>>, i: int, name: Seq<char>)
    requires
        0 <= i < bodies.len(),
        stmts_uses(bodies[i]).contains(name),
    ensures
        modules_uses(bodies).contains(name),
    decreases bodies.len(),
{
    if i < bodies.len() - 1 {
        assert(bodies.drop_last()[i] == bodies[i]);
        lemma_modules_uses_contain(bodies.drop_last(), i, name);
    }
}

/// No reported definition is used anywhere in the visited modules: where the
/// names recorded as used are those that the module bodies use (as after
/// `new` and one `visit_module` per body), every reported item is an empty
/// file or has a name that no body uses.
pub proof fn law_reported_names_are_not_used<'a>(
    v: &DeadCodeVisitor<'a>,
    bodies: Seq<Seq<Stmt>>,
    x: CodeItemView,
)
    requires
        v.used() == modules_uses(bodies),
        v.report().contains(x),
    ensures
        item_views(v.empty_files()).contains(x) || forall|i: int|
            0 <= i < bodies.len() ==> !(#[trigger] stmts_uses(bodies[i])).contains(x.name),
{
    law_report_is_unused_definitions(v, x);
    if !item_views(v.empty_files()).contains(x) {
        assert forall|i: int| 0 <= i < bodies.len() implies !(#[trigger] stmts_uses(
            bodies[i],
        )).contains(x.name) by {
            if stmts_uses(bodies[i]).contains(x.name) {
                lemma_modules_uses_contain(bodies, i, x.name);
            }
        }
    }
}

} // verus!
