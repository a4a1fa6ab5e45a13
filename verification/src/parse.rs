//! Parsing Python source with `rustpython-parser`.
//!
//! The parser's result is a function of the source text alone; it is named
//! here (`parsed_suite`, `parsed_expr`) and handed over as the library's own
//! syntax tree. The helpers below turn each node of the parser's tree into
//! the node of the library's tree that holds the same fields.
use vstd::prelude::*;

use crate::ast::{Alias, BoolOp, CompareOp, Comprehension, Constant, DictItem, ExceptHandler, Operator, SynExpr, SynStmt, UnaryOp};
use rustpython_parser::ast as py;
use rustpython_parser::Parse;

verus! {

#[verifier::external_type_specification]
#[verifier::external_body]
pub struct ExTextRange(rustpython_parser::text_size::TextRange);

#[verifier::external_type_specification]
#[verifier::external_body]
#[verifier::reject_recursive_types(R)]
pub struct ExPyStmt<R>(rustpython_parser::ast::Stmt<R>);

#[verifier::external_type_specification]
#[verifier::external_body]
#[verifier::reject_recursive_types(R)]
pub struct ExPyExpr<R>(rustpython_parser::ast::Expr<R>);

/// The statements that the source parses to as a module, if it parses.
pub uninterp spec fn parsed_suite(source: Seq<char>) -> Option<Seq<SynStmt>>;

/// The expression that the source parses to, or the text of the parse
/// error.
pub uninterp spec fn parsed_expr(source: Seq<char>) -> Result<SynExpr, Seq<char>>;

/// `Suite::parse` of rustpython-parser on the source (as file `<eval>`): the
/// statements of the module, each turned into the library's tree; `None`
/// where the source does not parse as a module. Which tree comes out is only
/// named.
#[verifier::external_body]
pub(crate) fn parse_suite(source: &str) -> (res: Option<Vec<SynStmt>>)
    ensures
        match parsed_suite(source@) {
            Some(ss) => res matches Some(v) && v@ == ss,
            None => res is None,
        },
{
    py::Suite::parse(source, "<eval>").ok().map(|ss| syn_stmts(&ss))
}

/// `Expr::parse` of rustpython-parser on the source (as file `<eval>`): the
/// expression turned into the library's tree, or the `Display` text of the
/// parse error. Which tree or text comes out is only named.
#[verifier::external_body]
pub(crate) fn parse_expr(source: &str) -> (res: Result<SynExpr, String>)
    ensures
        match parsed_expr(source@) {
            Ok(e) => res matches Ok(x) && x == e,
            Err(m) => res matches Err(x) && x@ == m,
        },
{
    py::Expr::parse(source, "<eval>").map(|e| syn_expr(&e)).map_err(|e| e.to_string())
}

/// The parser's statements as the library's.
#[verifier::external_body]
fn syn_stmts(ss: &[py::Stmt]) -> Vec<SynStmt> {
    ss.iter().map(syn_stmt).collect()
}

/// The parser's expressions as the library's.
#[verifier::external_body]
fn syn_exprs(es: &[py::Expr]) -> Vec<SynExpr> {
    es.iter().map(syn_expr).collect()
}

/// The parser's expression as the library's, boxed.
#[verifier::external_body]
fn syn_boxed(e: &py::Expr) -> Box<SynExpr> {
    Box::new(syn_expr(e))
}

/// A literal of the parser as the library's: an integer beyond `i64` (never
/// negative, as literals are unsigned) stands as `i64::MAX`, a float as its
/// bit pattern.
#[verifier::external_body]
fn syn_constant(c: &py::Expr) -> Constant {
    match c {
        py::Expr::Constant(k) => match &k.value {
            py::Constant::Int(i) => Constant::Int(i64::try_from(i).unwrap_or(i64::MAX)),
            py::Constant::Float(f) => Constant::Float(f.to_bits()),
            py::Constant::Bool(b) => Constant::Bool(*b),
            py::Constant::None => Constant::NoneValue,
            py::Constant::Str(s) => Constant::Str(s.to_string()),
            _ => Constant::Other,
        },
        _ => Constant::Other,
    }
}

/// An expression node of the parser as the library's: the common kinds.
#[verifier::external_body]
fn syn_expr(e: &py::Expr) -> SynExpr {
    match e {
        py::Expr::Constant(_) => SynExpr::Constant(syn_constant(e)),
        py::Expr::Name(n) => SynExpr::Name(n.id.to_string()),
        py::Expr::Call(c) => SynExpr::Call(syn_boxed(&c.func), syn_exprs(&c.args)),
        py::Expr::List(l) => SynExpr::List(syn_exprs(&l.elts)),
        py::Expr::Tuple(t) => SynExpr::Tuple(syn_exprs(&t.elts)),
        py::Expr::Subscript(s) => SynExpr::Subscript(syn_boxed(&s.value), syn_boxed(&s.slice)),
        _ => syn_expr_ops(e),
    }
}

/// An operator expression of the parser as the library's.
#[verifier::external_body]
fn syn_expr_ops(e: &py::Expr) -> SynExpr {
    match e {
        py::Expr::BinOp(b) => SynExpr::BinOp(syn_boxed(&b.left), syn_operator(e), syn_boxed(&b.right)),
        py::Expr::Compare(c) => SynExpr::Compare(syn_boxed(&c.left), syn_compare_ops(e), syn_exprs(&c.comparators)),
        py::Expr::UnaryOp(u) => SynExpr::UnaryOp(syn_unary_op(e), syn_boxed(&u.operand)),
        py::Expr::Attribute(a) => SynExpr::Attribute(syn_boxed(&a.value), a.attr.to_string()),
        py::Expr::Await(a) => SynExpr::Await(syn_boxed(&a.value)),
        _ => syn_expr_rest(e),
    }
}

/// The remaining expression kinds of the parser as the library's.
#[verifier::external_body]
fn syn_expr_rest(e: &py::Expr) -> SynExpr {
    match e {
        py::Expr::BoolOp(b) => match b.values.split_first() {
            Some((first, rest)) => SynExpr::BoolOp(match b.op {
                py::BoolOp::And => BoolOp::And,
                py::BoolOp::Or => BoolOp::Or,
            }, syn_boxed(first), syn_exprs(rest)),
            None => SynExpr::Other(format!("{:?}", e)),
        },
        py::Expr::JoinedStr(j) => SynExpr::JoinedStr(syn_exprs(&j.values)),
        py::Expr::FormattedValue(f) => SynExpr::FormattedValue(syn_boxed(&f.value), format!("{:?}", e)),
        _ => syn_expr_displays(e),
    }
}

/// Comprehensions, dicts and slices of the parser as the library's.
#[verifier::external_body]
fn syn_expr_displays(e: &py::Expr) -> SynExpr {
    match e {
        py::Expr::ListComp(c) => SynExpr::ListComp(syn_boxed(&c.elt), syn_generators(e)),
        py::Expr::Dict(_) => SynExpr::Dict(syn_dict_items(e)),
        py::Expr::Slice(s) => SynExpr::Slice(s.lower.as_deref().map(syn_boxed), s.upper.as_deref().map(
            syn_boxed), s.step.as_deref().map(syn_boxed), format!("{:?}", e)),
        other => SynExpr::Other(format!("{:?}", other)),
    }
}

/// The entries of a dict display of the parser as the library's.
#[verifier::external_body]
fn syn_dict_items(e: &py::Expr) -> Vec<DictItem> {
    match e {
        py::Expr::Dict(d) => d.keys.iter().zip(d.values.iter()).map(|(k, v)| DictItem {
            key: k.as_ref().map(syn_expr), value: syn_expr(v) }).collect(),
        _ => Vec::new(),
    }
}

/// The generators of a list comprehension of the parser as the library's.
#[verifier::external_body]
fn syn_generators(e: &py::Expr) -> Vec<Comprehension> {
    match e {
        py::Expr::ListComp(c) => c.generators.iter().map(|g| Comprehension {
            target: syn_expr(&g.target), iter: syn_expr(&g.iter), ifs: syn_exprs(&g.ifs) }).collect(),
        _ => Vec::new(),
    }
}

/// The operator of a binary expression of the parser as the library's; any
/// other operator by its `Debug` name.
#[verifier::external_body]
fn syn_operator(e: &py::Expr) -> Operator {
    match e {
        py::Expr::BinOp(b) => match b.op {
            py::Operator::Add => Operator::Add,
            py::Operator::Sub => Operator::Sub,
            py::Operator::Mult => Operator::Mult,
            py::Operator::Div => Operator::Div,
            py::Operator::Mod => Operator::Mod,
            other => Operator::Other(format!("{:?}", other)),
        },
        _ => Operator::Other(String::new()),
    }
}

/// The operator of an augmented assignment of the parser as the library's;
/// any other operator by its `Debug` name.
#[verifier::external_body]
fn syn_aug_operator(s: &py::Stmt) -> Operator {
    match s {
        py::Stmt::AugAssign(a) => match a.op {
            py::Operator::Add => Operator::Add,
            py::Operator::Sub => Operator::Sub,
            py::Operator::Mult => Operator::Mult,
            py::Operator::Div => Operator::Div,
            py::Operator::Mod => Operator::Mod,
            other => Operator::Other(format!("{:?}", other)),
        },
        _ => Operator::Other(String::new()),
    }
}

/// The operators of a comparison chain of the parser as the library's; any
/// other operator by its `Debug` name.
#[verifier::external_body]
fn syn_compare_ops(e: &py::Expr) -> Vec<CompareOp> {
    match e {
        py::Expr::Compare(c) => c.ops.iter().map(|op| match op {
            py::CmpOp::Eq => CompareOp::Eq,
            py::CmpOp::NotEq => CompareOp::NotEq,
            py::CmpOp::Lt => CompareOp::Lt,
            py::CmpOp::LtE => CompareOp::LtE,
            py::CmpOp::Gt => CompareOp::Gt,
            py::CmpOp::GtE => CompareOp::GtE,
            py::CmpOp::In => CompareOp::In,
            py::CmpOp::NotIn => CompareOp::NotIn,
            other => CompareOp::Other(format!("{:?}", other)),
        }).collect(),
        _ => Vec::new(),
    }
}

/// The operator of a unary expression of the parser as the library's; any
/// other operator by its `Debug` name.
#[verifier::external_body]
fn syn_unary_op(e: &py::Expr) -> UnaryOp {
    match e {
        py::Expr::UnaryOp(u) => match u.op {
            py::UnaryOp::USub => UnaryOp::USub,
            py::UnaryOp::UAdd => UnaryOp::UAdd,
            py::UnaryOp::Not => UnaryOp::Not,
            other => UnaryOp::Other(format!("{:?}", other)),
        },
        _ => UnaryOp::Other(String::new()),
    }
}

/// A statement node of the parser as the library's: definitions and
/// compound statements.
#[verifier::external_body]
fn syn_stmt(s: &py::Stmt) -> SynStmt {
    match s {
        py::Stmt::FunctionDef(f) => SynStmt::FunctionDef(f.name.to_string(), syn_params(s), syn_stmts(&f.body)),
        py::Stmt::AsyncFunctionDef(f) => SynStmt::AsyncFunctionDef(f.name.to_string(), syn_params(s),
            syn_stmts(&f.body)),
        py::Stmt::If(i) => SynStmt::If(syn_expr(&i.test), syn_stmts(&i.body), syn_stmts(&i.orelse)),
        py::Stmt::For(f) => SynStmt::For(syn_expr(&f.target), syn_expr(&f.iter), syn_stmts(&f.body)),
        _ => syn_stmt_simple(s),
    }
}

/// The names of the positional parameters of a function definition of the
/// parser.
#[verifier::external_body]
fn syn_params(s: &py::Stmt) -> Vec<String> {
    match s {
        py::Stmt::FunctionDef(f) => f.args.args.iter().map(|a| a.def.arg.to_string()).collect(),
        py::Stmt::AsyncFunctionDef(f) => f.args.args.iter().map(|a| a.def.arg.to_string()).collect(),
        _ => Vec::new(),
    }
}

/// A simple statement of the parser as the library's.
#[verifier::external_body]
fn syn_stmt_simple(s: &py::Stmt) -> SynStmt {
    match s {
        py::Stmt::Assign(a) => SynStmt::Assign(syn_exprs(&a.targets), syn_expr(&a.value)),
        py::Stmt::While(w) => SynStmt::While(syn_expr(&w.test), syn_stmts(&w.body)),
        py::Stmt::AugAssign(a) => SynStmt::AugAssign(syn_expr(&a.target), syn_aug_operator(s), syn_expr(&a.value)),
        py::Stmt::Expr(e) => SynStmt::Expr(syn_expr(&e.value)),
        py::Stmt::Pass(_) => SynStmt::Pass,
        py::Stmt::Break(_) => SynStmt::Break,
        py::Stmt::Continue(_) => SynStmt::Continue,
        _ => syn_stmt_rest(s),
    }
}

/// `return`, `raise`, imports, `try` and the statements the library does not
/// compile.
#[verifier::external_body]
fn syn_stmt_rest(s: &py::Stmt) -> SynStmt {
    match s {
        py::Stmt::Return(r) => SynStmt::Return(r.value.as_deref().map(syn_expr)),
        py::Stmt::Raise(r) => SynStmt::Raise(r.exc.as_deref().map(syn_expr)),
        py::Stmt::Import(_) => SynStmt::Import(syn_aliases(s)),
        py::Stmt::ImportFrom(i) => SynStmt::ImportFrom(i.module.as_ref().map(|m| m.to_string()), syn_aliases(s)),
        py::Stmt::Try(t) => SynStmt::Try(syn_stmts(&t.body), syn_handlers(s), syn_stmts(&t.finalbody)),
        other => SynStmt::Other(format!("{:?}", other)),
    }
}

/// The names of an import statement of the parser, with their aliases.
#[verifier::external_body]
fn syn_aliases(s: &py::Stmt) -> Vec<Alias> {
    let names = match s {
        py::Stmt::Import(i) => &i.names,
        py::Stmt::ImportFrom(i) => &i.names,
        _ => return Vec::new(),
    };
    names.iter().map(|a| Alias { name: a.name.to_string(), asname: a.asname.as_ref().map(|n| n.to_string()) })
        .collect()
}

/// The `except` clauses of a `try` statement of the parser as the library's.
#[verifier::external_body]
fn syn_handlers(s: &py::Stmt) -> Vec<ExceptHandler> {
    match s {
        py::Stmt::Try(t) => t.handlers.iter().map(|h| match h {
            py::ExceptHandler::ExceptHandler(eh) => ExceptHandler { type_: eh.type_.as_deref().map(syn_expr),
                name: eh.name.as_ref().map(|n| n.to_string()), body: syn_stmts(&eh.body) },
        }).collect(),
        _ => Vec::new(),
    }
}

} // verus!
