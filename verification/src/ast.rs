//! The program tree the analyses in this crate read: expressions, patterns,
//! statements. It holds, as plain values, what those analyses look at — names,
//! nesting and binding structure — and nothing of types or source positions.

use vstd::prelude::*;

verus! {

/// A source position: 1-based line, 0-based column.
#[derive(Debug, Clone, Copy, PartialEq, Eq, Structural)]
pub struct Position {
    pub line: u32,
    pub column: u32,
}

/// A lambda or function parameter.
#[derive(Debug)]
pub struct Parameter {
    pub name: String,
}

/// A `name: value` argument of a call.
#[derive(Debug)]
pub struct NamedArgument {
    pub name: String,
    pub value: Expr,
}

/// A `name: value` field of an object, constructor or update.
#[derive(Debug)]
pub struct FieldAssignment {
    pub name: String,
    pub value: Expr,
}

/// A `key: value` entry of a map literal.
#[derive(Debug)]
pub struct MapEntry {
    pub key: Expr,
    pub value: Expr,
}

/// A piece of an interpolated string: literal text or a `${…}` expression.
#[derive(Debug)]
pub enum InterpolatedPart {
    Text(String),
    Expr(Expr),
}

/// One `pattern => body` arm of a `match` or `select`.
#[derive(Debug)]
pub struct MatchArm {
    pub pattern: Pattern,
    pub body: Expr,
}

/// One `operation(params) => body` arm of an effect handler.
#[derive(Debug)]
pub struct HandlerArm {
    pub operation: String,
    pub params: Vec<String>,
    pub body: Expr,
}

/// A `match` pattern.
#[derive(Debug)]
pub enum Pattern {
    /// `_`
    Wildcard,
    /// A literal to compare against.
    Literal(Expr),
    /// `Name(a, b)` / `Name { a, b }`: binds `fields` and whatever the
    /// positional sub-patterns bind.
    Constructor { name: String, fields: Vec<String>, sub_patterns: Vec<Pattern> },
    /// `name: Type`
    TypeAnnotated { name: String, type_ref: String },
    /// `{ a, b }`
    FieldNames { fields: Vec<String> },
    /// `[p0, p1, ...rest]`
    List { elements: Vec<Pattern>, rest: Option<String> },
    /// A bare name, bound to the whole value.
    Binding(String),
}

/// An expression.
#[derive(Debug)]
pub enum Expr {
    Integer(i64),
    /// A floating-point literal, kept as its source spelling.
    Float(String),
    Str(String),
    Bool(bool),
    Identifier(String),
    /// A qualified name, as written (`Module.name`).
    Path(String),
    InterpolatedStr(Vec<InterpolatedPart>),
    List(Vec<Expr>),
    MapLit(Vec<MapEntry>),
    Object(Vec<FieldAssignment>),
    Binary { op: String, left: Box<Expr>, right: Box<Expr> },
    Pipe { left: Box<Expr>, right: Box<Expr> },
    Unary { op: String, operand: Box<Expr> },
    Call { function: Box<Expr>, arguments: Vec<Expr>, named_arguments: Vec<NamedArgument> },
    MethodCall {
        target: Box<Expr>,
        method: String,
        arguments: Vec<Expr>,
        named_arguments: Vec<NamedArgument>,
    },
    FieldAccess { target: Box<Expr>, field: String },
    Index { target: Box<Expr>, index: Box<Expr> },
    Lambda { parameters: Vec<Parameter>, body: Box<Expr> },
    Match { value: Box<Expr>, arms: Vec<MatchArm> },
    Block { statements: Vec<Stmt>, value: Option<Box<Expr>> },
    TypeConstructor { type_ref: String, fields: Vec<FieldAssignment> },
    Update { record: String, fields: Vec<FieldAssignment> },
    Spawn(Box<Expr>),
    Await(Box<Expr>),
    Recv(Box<Expr>),
    Yield(Option<Box<Expr>>),
    Send { channel: Box<Expr>, value: Box<Expr> },
    Select { arms: Vec<MatchArm> },
    Perform {
        effect: String,
        operation: String,
        arguments: Vec<Expr>,
        named_arguments: Vec<NamedArgument>,
    },
    Resume(Option<Box<Expr>>),
    Handler { effect: String, arms: Vec<HandlerArm>, body: Box<Expr> },
}

/// A statement or declaration.
#[derive(Debug)]
pub enum Stmt {
    Let { name: String, mutable: bool, value: Expr, position: Option<Position> },
    Assignment { name: String, value: Expr, position: Option<Position> },
    Expr { value: Expr, position: Option<Position> },
    Function { name: String, parameters: Vec<Parameter>, body: Expr, position: Option<Position> },
    /// A module and the declarations it holds.
    Module { name: String, body: Vec<Stmt> },
    Namespace { name: String, body: Vec<Stmt> },
    /// A declaration no analysis here reads into (a type, an effect, an
    /// extern, an import).
    Other,
}

/// A whole program: its top-level statements.
#[derive(Debug)]
pub struct Program {
    pub statements: Vec<Stmt>,
}

} // verus!
