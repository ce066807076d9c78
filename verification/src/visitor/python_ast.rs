//! The Python syntax tree as the visitor reads it: every statement,
//! expression and pattern form, with the names, string constants and byte
//! offsets (into the UTF-8 source) that the analysis looks at.

use vstd::prelude::*;

verus! {

/// How an expression is used where it stands.
#[derive(Debug, Clone, Copy, PartialEq, Eq, Structural)]
pub enum ExprContext {
    Load,
    Store,
    Del,
    Invalid,
}

/// A binary operator.
#[derive(Debug, Clone, Copy, PartialEq, Eq, Structural)]
pub enum Operator {
    Add,
    Sub,
    Mult,
    MatMult,
    Div,
    Mod,
    Pow,
    LShift,
    RShift,
    BitOr,
    BitXor,
    BitAnd,
    FloorDiv,
}

/// `name=value` in a call, or `**value` when `arg` is `None`.
#[derive(Debug)]
pub struct Keyword {
    pub arg: Option<String>,
    pub value: Expr,
}

/// One `for target in iter if ...` clause of a comprehension.
#[derive(Debug)]
pub struct Comprehension {
    pub target: Expr,
    pub iter: Expr,
    pub ifs: Vec<Expr>,
}

/// A piece of an f-string or t-string: literal text, or an interpolated
/// expression with its optional format specification.
#[derive(Debug)]
pub enum InterpolatedElement {
    Literal,
    Interpolation { expression: Box<Expr>, format_spec: Option<Vec<InterpolatedElement>> },
}

/// `key: value` in a dict display; `key` is `None` for `**mapping`.
#[derive(Debug)]
pub struct DictItem {
    pub key: Option<Expr>,
    pub value: Expr,
}

/// A parameter name with its annotation.
#[derive(Debug)]
pub struct Parameter {
    pub name: String,
    pub annotation: Option<Box<Expr>>,
}

/// A positional or keyword parameter with its default.
#[derive(Debug)]
pub struct ParameterWithDefault {
    pub parameter: Parameter,
    pub default: Option<Box<Expr>>,
}

/// The parameter list of a function or lambda.
#[derive(Debug)]
pub struct Parameters {
    pub posonlyargs: Vec<ParameterWithDefault>,
    pub args: Vec<ParameterWithDefault>,
    pub vararg: Option<Parameter>,
    pub kwonlyargs: Vec<ParameterWithDefault>,
    pub kwarg: Option<Parameter>,
}

/// An expression. `start`/`end` are byte offsets into the source.
#[derive(Debug)]
pub enum Expr {
    Name { id: String, ctx: ExprContext, start: u32, end: u32 },
    Attribute { value: Box<Expr>, attr: String, ctx: ExprContext, start: u32, end: u32 },
    Call { func: Box<Expr>, args: Vec<Expr>, keywords: Vec<Keyword> },
    BinOp { left: Box<Expr>, op: Operator, right: Box<Expr> },
    BoolOp { values: Vec<Expr> },
    UnaryOp { operand: Box<Expr> },
    Named { target: Box<Expr>, value: Box<Expr> },
    Lambda { parameters: Option<Box<Parameters>>, body: Box<Expr> },
    IfExp { test: Box<Expr>, body: Box<Expr>, orelse: Box<Expr> },
    Dict { items: Vec<DictItem> },
    SetDisplay { elts: Vec<Expr> },
    ListComp { elt: Box<Expr>, generators: Vec<Comprehension> },
    SetComp { elt: Box<Expr>, generators: Vec<Comprehension> },
    DictComp { key: Option<Box<Expr>>, value: Box<Expr>, generators: Vec<Comprehension> },
    Generator { elt: Box<Expr>, generators: Vec<Comprehension> },
    Await { value: Box<Expr> },
    Yield { value: Option<Box<Expr>> },
    YieldFrom { value: Box<Expr> },
    Compare { left: Box<Expr>, comparators: Vec<Expr> },
    FString { elements: Vec<InterpolatedElement> },
    TString { elements: Vec<InterpolatedElement> },
    Subscript { value: Box<Expr>, slice: Box<Expr> },
    Starred { value: Box<Expr> },
    List { elts: Vec<Expr> },
    Tuple { elts: Vec<Expr> },
    Slice { lower: Option<Box<Expr>>, upper: Option<Box<Expr>>, step: Option<Box<Expr>> },
    /// A string literal, implicitly concatenated parts joined.
    StringLiteral { value: String },
    BytesLiteral,
    NumberLiteral,
    BooleanLiteral,
    NoneLiteral,
    EllipsisLiteral,
    IpyEscapeCommand,
}

/// `import name` / `import name as asname`, with its byte span.
#[derive(Debug)]
pub struct Alias {
    pub name: String,
    pub asname: Option<String>,
    pub start: u32,
    pub end: u32,
}

/// A decorator expression with its byte span (from the `@`).
#[derive(Debug)]
pub struct Decorator {
    pub expression: Expr,
    pub start: u32,
    pub end: u32,
}

/// One item of a `with` statement.
#[derive(Debug)]
pub struct WithItem {
    pub context_expr: Expr,
    pub optional_vars: Option<Expr>,
}

/// `attr=pattern` in a class pattern.
#[derive(Debug)]
pub struct PatternKeyword {
    pub attr: String,
    pub pattern: Pattern,
}

/// A `match` pattern.
#[derive(Debug)]
pub enum Pattern {
    MatchValue { value: Expr },
    MatchSingleton,
    MatchSequence { patterns: Vec<Pattern> },
    MatchMapping { keys: Vec<Expr>, patterns: Vec<Pattern> },
    MatchClass { cls: Expr, patterns: Vec<Pattern>, keywords: Vec<PatternKeyword> },
    MatchStar,
    MatchAs { pattern: Option<Box<Pattern>> },
    MatchOr { patterns: Vec<Pattern> },
}

/// One `case` of a `match` statement.
#[derive(Debug)]
pub struct MatchCase {
    pub pattern: Pattern,
    pub guard: Option<Expr>,
    pub body: Vec<Stmt>,
}

/// An `elif test:` clause, or the final `else:` when `test` is `None`.
#[derive(Debug)]
pub struct ElifElseClause {
    pub test: Option<Expr>,
    pub body: Vec<Stmt>,
}

/// An `except` clause.
#[derive(Debug)]
pub struct ExceptHandler {
    pub type_: Option<Expr>,
    pub body: Vec<Stmt>,
}

/// A statement. `start`/`end` are byte offsets into the source; a
/// definition's span starts at its first decorator.
#[derive(Debug)]
pub enum Stmt {
    ClassDef {
        name: String,
        bases: Vec<Expr>,
        keywords: Vec<Keyword>,
        decorator_list: Vec<Decorator>,
        body: Vec<Stmt>,
        start: u32,
        end: u32,
    },
    FunctionDef {
        name: String,
        parameters: Box<Parameters>,
        decorator_list: Vec<Decorator>,
        return_annotation: Option<Box<Expr>>,
        body: Vec<Stmt>,
        start: u32,
        end: u32,
    },
    Import { names: Vec<Alias> },
    ImportFrom { module: Option<String>, names: Vec<Alias> },
    Assign { targets: Vec<Expr>, value: Box<Expr> },
    AnnAssign { target: Box<Expr>, annotation: Box<Expr>, value: Option<Box<Expr>> },
    AugAssign { target: Box<Expr>, value: Box<Expr> },
    Return { value: Option<Box<Expr>> },
    Delete { targets: Vec<Expr> },
    For { target: Box<Expr>, iter: Box<Expr>, body: Vec<Stmt>, orelse: Vec<Stmt> },
    While { test: Box<Expr>, body: Vec<Stmt>, orelse: Vec<Stmt> },
    If { test: Box<Expr>, body: Vec<Stmt>, elif_else_clauses: Vec<ElifElseClause> },
    With { items: Vec<WithItem>, body: Vec<Stmt> },
    Match { subject: Box<Expr>, cases: Vec<MatchCase> },
    Raise { exc: Option<Box<Expr>>, cause: Option<Box<Expr>> },
    Try {
        body: Vec<Stmt>,
        handlers: Vec<ExceptHandler>,
        orelse: Vec<Stmt>,
        finalbody: Vec<Stmt>,
    },
    Assert { test: Box<Expr>, msg: Option<Box<Expr>> },
    ExprStmt { value: Box<Expr> },
    TypeAlias { value: Box<Expr> },
    Global,
    Nonlocal,
    Pass,
    Break,
    Continue,
    IpyEscapeCommand,
}

} // verus!
