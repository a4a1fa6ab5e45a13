//! The syntax tree that the compiler reads.
//!
//! It holds, as plain values, what the compiler needs of a parsed Python
//! program. Constructs that the compiler rejects are kept with the text that
//! its error message shows.
use vstd::prelude::*;

verus! {

/// A literal constant.
#[derive(Debug)]
pub enum Constant {
    /// An integer literal, saturated to the range of `i64` (only whether it
    /// fits in `i32` and its value there matter to the compiler).
    Int(i64),
    /// A float literal, by its IEEE-754 bit pattern.
    Float(u64),
    Bool(bool),
    /// The `None` literal.
    NoneValue,
    Str(String),
    /// Any other literal (bytes, complex numbers, the ellipsis, ...).
    Other,
}

/// A binary arithmetic operator.
#[derive(Debug)]
pub enum Operator {
    Add,
    Sub,
    Mult,
    Div,
    Mod,
    /// Any other operator, by the name that error messages show.
    Other(String),
}

/// A comparison operator.
#[derive(Debug)]
pub enum CompareOp {
    Eq,
    NotEq,
    Lt,
    LtE,
    Gt,
    GtE,
    In,
    NotIn,
    /// Any other comparison (`is`, `is not`), by the name that error messages
    /// show.
    Other(String),
}

/// A unary operator.
#[derive(Debug)]
pub enum UnaryOp {
    USub,
    UAdd,
    Not,
    /// Any other unary operator, by the name that error messages show.
    Other(String),
}

/// A short-circuit boolean operator.
#[derive(Debug)]
pub enum BoolOp {
    And,
    Or,
}

/// One `for ... in ... if ...` clause of a comprehension.
#[derive(Debug)]
pub struct Comprehension {
    pub target: SynExpr,
    pub iter: SynExpr,
    pub ifs: Vec<SynExpr>,
}

/// One `key: value` entry of a dict display; the key is absent for a `**`
/// unpacking.
#[derive(Debug)]
pub struct DictItem {
    pub key: Option<SynExpr>,
    pub value: SynExpr,
}

/// An expression.
#[derive(Debug)]
pub enum SynExpr {
    Constant(Constant),
    Name(String),
    BinOp(Box<SynExpr>, Operator, Box<SynExpr>),
    /// The left operand, the operators and the right operands of a
    /// comparison chain.
    Compare(Box<SynExpr>, Vec<CompareOp>, Vec<SynExpr>),
    /// The called expression and the positional arguments.
    Call(Box<SynExpr>, Vec<SynExpr>),
    List(Vec<SynExpr>),
    /// The element and the generators of a list comprehension.
    ListComp(Box<SynExpr>, Vec<Comprehension>),
    Tuple(Vec<SynExpr>),
    /// The entries of a dict display.
    Dict(Vec<DictItem>),
    /// The subscripted object and the index.
    Subscript(Box<SynExpr>, Box<SynExpr>),
    /// The lower bound, upper bound and step of a slice, and the text that
    /// an error message shows where a slice is not allowed.
    Slice(Option<Box<SynExpr>>, Option<Box<SynExpr>>, Option<Box<SynExpr>>, String),
    Attribute(Box<SynExpr>, String),
    UnaryOp(UnaryOp, Box<SynExpr>),
    /// A boolean operator with its first operand and the operands after it.
    BoolOp(BoolOp, Box<SynExpr>, Vec<SynExpr>),
    /// The parts of an f-string.
    JoinedStr(Vec<SynExpr>),
    /// A `{...}` replacement field of an f-string, and the text that an error
    /// message shows where one is not allowed.
    FormattedValue(Box<SynExpr>, String),
    Await(Box<SynExpr>),
    /// Any other expression, by the text that error messages show.
    Other(String),
}

/// A name imported by `import` or `from ... import`, with its alias.
#[derive(Debug)]
pub struct Alias {
    pub name: String,
    pub asname: Option<String>,
}

/// One `except` clause.
#[derive(Debug)]
pub struct ExceptHandler {
    pub type_: Option<SynExpr>,
    pub name: Option<String>,
    pub body: Vec<SynStmt>,
}

/// A statement.
#[derive(Debug)]
pub enum SynStmt {
    /// The targets and the assigned value.
    Assign(Vec<SynExpr>, SynExpr),
    /// The name, the parameter names and the body of a function.
    FunctionDef(String, Vec<String>, Vec<SynStmt>),
    /// The name, the parameter names and the body of an `async` function.
    AsyncFunctionDef(String, Vec<String>, Vec<SynStmt>),
    Return(Option<SynExpr>),
    /// The test, the body and the `else` branch.
    If(SynExpr, Vec<SynStmt>, Vec<SynStmt>),
    /// The test and the body.
    While(SynExpr, Vec<SynStmt>),
    /// The target, the iterated expression and the body.
    For(SynExpr, SynExpr, Vec<SynStmt>),
    Expr(SynExpr),
    Raise(Option<SynExpr>),
    /// The body, the handlers and the `finally` body.
    Try(Vec<SynStmt>, Vec<ExceptHandler>, Vec<SynStmt>),
    Pass,
    Break,
    Continue,
    Import(Vec<Alias>),
    /// The module (absent for a relative import without one) and the names.
    ImportFrom(Option<String>, Vec<Alias>),
    /// The target, the operator and the value of an augmented assignment.
    AugAssign(SynExpr, Operator, SynExpr),
    /// Any other statement, by the text that error messages show.
    Other(String),
}

/// A parsed program: a module (a sequence of statements), or a lone
/// expression where the text does not parse as a module.
#[derive(Debug)]
pub enum Program {
    Module(Vec<SynStmt>),
    Expression(SynExpr),
}

} // verus!
