//! The compiler from the syntax tree to bytecode.
//!
//! What each construct compiles to is stated by the spec functions
//! `expr_code` and `stmt_code`; the compiler's functions are proved to emit
//! exactly that, or to fail with exactly the error stated there.
use vstd::prelude::*;
use crate::ast::{BoolOp, CompareOp, Comprehension, Constant, DictItem, ExceptHandler, SynExpr, Operator, Program, SynStmt, UnaryOp, Alias};
use crate::bytecode::{ByteCode, Instr, Instruction, code_view};
use crate::parse::{parse_expr, parse_suite, parsed_expr, parsed_suite};
use crate::codegen::{HoleKind, Slot, as_ints, fill, holes, lemma_fill_append, lemma_fill_holes, lemma_holes_append, lemma_holes_in_range, lemma_holes_lift, lemma_holes_single, lemma_lift, lemma_no_hole_append, lemma_no_hole_holes, lemma_shape, lemma_write_holes, lift, no_hole, placed, write_jumps};
use crate::strings::views;
use crate::text::{decimal_text, push_decimal, str_eq};
use crate::value::{ExceptionType, TypeObject};

verus! {

// ---------------------------------------------------------------------------
// What the compiler emits
// ---------------------------------------------------------------------------

/// Emitted code and the temporary-name counter after it, or an error message.
pub type Emit = Result<(Seq<Instr>, usize), Seq<char>>;

/// The counter after one more temporary name has been taken.
pub open spec fn next_tmp(t: usize) -> usize {
    if t == usize::MAX {
        0
    } else {
        (t + 1) as usize
    }
}

/// The index of a local variable: the last parameter of that name.
pub open spec fn local_index(locals: Seq<Seq<char>>, name: Seq<char>) -> Option<int>
    decreases locals.len(),
{
    if locals.len() == 0 {
        None
    } else if locals.last() == name {
        Some(locals.len() - 1)
    } else {
        local_index(locals.drop_last(), name)
    }
}

/// Reading a variable: a local one by its index, else a global one by name.
pub open spec fn load_name(locals: Seq<Seq<char>>, name: Seq<char>) -> Instr {
    match local_index(locals, name) {
        Some(i) => Instr::GetLocal(i as usize),
        None => Instr::GetGlobal(name),
    }
}

/// Writing a variable: a local one by its index, else a global one by name.
pub open spec fn store_name(locals: Seq<Seq<char>>, name: Seq<char>) -> Instr {
    match local_index(locals, name) {
        Some(i) => Instr::SetLocal(i as usize),
        None => Instr::SetGlobal(name),
    }
}

/// The built-in type that a bare name stands for.
pub open spec fn type_named(name: Seq<char>) -> Option<TypeObject> {
    if name == "int"@ {
        Some(TypeObject::Int)
    } else if name == "float"@ {
        Some(TypeObject::Float)
    } else if name == "bool"@ {
        Some(TypeObject::Bool)
    } else if name == "str"@ {
        Some(TypeObject::Str)
    } else if name == "list"@ {
        Some(TypeObject::List)
    } else if name == "dict"@ {
        Some(TypeObject::Dict)
    } else if name == "tuple"@ {
        Some(TypeObject::Tuple)
    } else {
        None
    }
}

/// The exception type that a name in `raise` or `except` stands for.
pub open spec fn exception_named(name: Seq<char>) -> Option<ExceptionType> {
    if name == "ValueError"@ {
        Some(ExceptionType::ValueError)
    } else if name == "TypeError"@ {
        Some(ExceptionType::TypeError)
    } else if name == "IndexError"@ {
        Some(ExceptionType::IndexError)
    } else if name == "KeyError"@ {
        Some(ExceptionType::KeyError)
    } else if name == "ZeroDivisionError"@ {
        Some(ExceptionType::ZeroDivisionError)
    } else if name == "RuntimeError"@ {
        Some(ExceptionType::RuntimeError)
    } else if name == "IteratorError"@ {
        Some(ExceptionType::IteratorError)
    } else if name == "OSError"@ {
        Some(ExceptionType::OSError)
    } else if name == "AttributeError"@ {
        Some(ExceptionType::AttributeError)
    } else if name == "Exception"@ {
        Some(ExceptionType::Exception)
    } else {
        None
    }
}

/// The instruction of an arithmetic operator.
pub open spec fn binop_instr(op: Operator) -> Option<Instr> {
    match op {
        Operator::Add => Some(Instr::Add),
        Operator::Sub => Some(Instr::Sub),
        Operator::Mult => Some(Instr::Mul),
        Operator::Div => Some(Instr::Div),
        Operator::Mod => Some(Instr::Mod),
        Operator::Other(_) => None,
    }
}

/// Each arithmetic operator of Python compiles to the machine instruction of
/// the same operation: the code of `l op r` is the code of `l`, then the code
/// of `r`, then `Add` for `+`, `Sub` for `-`, `Mul` for `*`, `Div` for `/` and
/// `Mod` for `%`; any other operator is refused.
pub proof fn lemma_binop_compiles_to_its_operation(
    l: SynExpr,
    op: Operator,
    r: SynExpr,
    locals: Seq<Seq<char>>,
    tmp: usize,
    base: int,
)
    ensures
        expr_code(l, locals, tmp, base) matches Ok((cl, t1)) ==> (expr_code(r, locals, t1, base + cl.len())
            matches Ok((cr, t2)) ==> {
            let whole = expr_code(SynExpr::BinOp(Box::new(l), op, Box::new(r)), locals, tmp, base);
            &&& op is Add ==> whole == Ok::<(Seq<Instr>, usize), Seq<char>>((cl + cr.push(Instr::Add), t2))
            &&& op is Sub ==> whole == Ok::<(Seq<Instr>, usize), Seq<char>>((cl + cr.push(Instr::Sub), t2))
            &&& op is Mult ==> whole == Ok::<(Seq<Instr>, usize), Seq<char>>((cl + cr.push(Instr::Mul), t2))
            &&& op is Div ==> whole == Ok::<(Seq<Instr>, usize), Seq<char>>((cl + cr.push(Instr::Div), t2))
            &&& op is Mod ==> whole == Ok::<(Seq<Instr>, usize), Seq<char>>((cl + cr.push(Instr::Mod), t2))
            &&& op is Other ==> whole is Err
        }),
{
}

/// The program `a op b` of two integer literals compiles to pushing `a`,
/// pushing `b`, and the instruction of the operation: `5 - 3` is
/// `PushInt(5), PushInt(3), Sub`.
pub proof fn lemma_literal_binop_program(a: i32, op: Operator, b: i32)
    ensures
        ({
            let e = SynExpr::BinOp(
                Box::new(SynExpr::Constant(Constant::Int(a as i64))),
                op,
                Box::new(SynExpr::Constant(Constant::Int(b as i64))),
            );
            let pushes = seq![Instr::PushInt(a), Instr::PushInt(b)];
            &&& op is Add ==> program_code(Program::Expression(e)) == Ok::<Seq<Instr>, Seq<char>>(pushes.push(Instr::Add))
            &&& op is Sub ==> program_code(Program::Expression(e)) == Ok::<Seq<Instr>, Seq<char>>(pushes.push(Instr::Sub))
            &&& op is Mult ==> program_code(Program::Expression(e)) == Ok::<Seq<Instr>, Seq<char>>(pushes.push(Instr::Mul))
            &&& op is Div ==> program_code(Program::Expression(e)) == Ok::<Seq<Instr>, Seq<char>>(pushes.push(Instr::Div))
            &&& op is Mod ==> program_code(Program::Expression(e)) == Ok::<Seq<Instr>, Seq<char>>(pushes.push(Instr::Mod))
        }),
{
    let e = SynExpr::BinOp(
        Box::new(SynExpr::Constant(Constant::Int(a as i64))),
        op,
        Box::new(SynExpr::Constant(Constant::Int(b as i64))),
    );
    assert(seq![Instr::PushInt(a)] + seq![Instr::PushInt(b)] =~= seq![Instr::PushInt(a), Instr::PushInt(b)]);
    lemma_binop_compiles_to_its_operation(
        SynExpr::Constant(Constant::Int(a as i64)),
        op,
        SynExpr::Constant(Constant::Int(b as i64)),
        Seq::empty(),
        0,
        0,
    );
}

/// A comparison `l op r` compiles to the code of `l`, the code of `r`, and
/// the instruction of the same test: `==` is `Eq`, `!=` is `Ne`, `<` is `Lt`,
/// `<=` is `Le`, `>` is `Gt`, `>=` is `Ge`, `in` is `Contains` and `not in` is
/// `NotContains`; `is` and `is not` are refused.
pub proof fn lemma_compare_compiles_to_its_test(
    l: SynExpr,
    ops: Vec<CompareOp>,
    rights: Vec<SynExpr>,
    locals: Seq<Seq<char>>,
    tmp: usize,
    base: int,
)
    requires
        ops@.len() == 1,
        rights@.len() == 1,
    ensures
        expr_code(l, locals, tmp, base) matches Ok((cl, t1)) ==> (expr_code(rights@[0], locals, t1, base + cl.len())
            matches Ok((cr, t2)) ==> {
            let whole = expr_code(SynExpr::Compare(Box::new(l), ops, rights), locals, tmp, base);
            let with = |i: Instr| Ok::<(Seq<Instr>, usize), Seq<char>>((cl + cr.push(i), t2));
            &&& ops@[0] is Eq ==> whole == with(Instr::Eq)
            &&& ops@[0] is NotEq ==> whole == with(Instr::Ne)
            &&& ops@[0] is Lt ==> whole == with(Instr::Lt)
            &&& ops@[0] is LtE ==> whole == with(Instr::Le)
            &&& ops@[0] is Gt ==> whole == with(Instr::Gt)
            &&& ops@[0] is GtE ==> whole == with(Instr::Ge)
            &&& ops@[0] is In ==> whole == with(Instr::Contains)
            &&& ops@[0] is NotIn ==> whole == with(Instr::NotContains)
            &&& ops@[0] is Other ==> whole is Err
        }),
{
}

/// A unary `-x` compiles to the code of `x` then `Negate`, `not x` to the
/// code of `x` then `Not`, and `+x` to the code of `x` alone.
pub proof fn lemma_unary_compiles_to_its_operation(op: UnaryOp, x: SynExpr, locals: Seq<Seq<char>>, tmp: usize, base: int)
    ensures
        expr_code(x, locals, tmp, base) matches Ok((c, t)) ==> {
            let whole = expr_code(SynExpr::UnaryOp(op, Box::new(x)), locals, tmp, base);
            &&& op is USub ==> whole == Ok::<(Seq<Instr>, usize), Seq<char>>((c.push(Instr::Negate), t))
            &&& op is Not ==> whole == Ok::<(Seq<Instr>, usize), Seq<char>>((c.push(Instr::Not), t))
            &&& op is UAdd ==> whole == Ok::<(Seq<Instr>, usize), Seq<char>>((c, t))
            &&& op is Other ==> whole is Err
        },
{
}

/// A literal compiles to the one instruction that pushes it: an integer
/// that fits in 32 bits to `PushInt` of it (one that does not is refused
/// with "Integer overflow"), a float to `PushFloat` of its bits, a bool to
/// `PushBool`, `None` to `PushNone`, a string to `PushString`.
pub proof fn lemma_literals_compile_to_pushes(v: i64, bits: u64, b: bool, t: String)
    ensures
        i32::MIN <= v <= i32::MAX ==> program_code(Program::Expression(SynExpr::Constant(Constant::Int(v))))
            == Ok::<Seq<Instr>, Seq<char>>(seq![Instr::PushInt(v as i32)]),
        !(i32::MIN <= v <= i32::MAX) ==> program_code(Program::Expression(SynExpr::Constant(Constant::Int(v))))
            == Err::<Seq<Instr>, Seq<char>>("Integer overflow"@),
        program_code(Program::Expression(SynExpr::Constant(Constant::Float(bits)))) == Ok::<Seq<Instr>, Seq<char>>(
            seq![Instr::PushFloat(bits)],
        ),
        program_code(Program::Expression(SynExpr::Constant(Constant::Bool(b)))) == Ok::<Seq<Instr>, Seq<char>>(
            seq![Instr::PushBool(b)],
        ),
        program_code(Program::Expression(SynExpr::Constant(Constant::NoneValue))) == Ok::<Seq<Instr>, Seq<char>>(
            seq![Instr::PushNone],
        ),
        program_code(Program::Expression(SynExpr::Constant(Constant::Str(t)))) == Ok::<Seq<Instr>, Seq<char>>(
            seq![Instr::PushString(t@)],
        ),
{
}

/// The name of an operator that has no instruction.
pub open spec fn operator_text(op: Operator) -> Seq<char> {
    match op {
        Operator::Other(n) => n@,
        _ => Seq::empty(),
    }
}

/// The instruction of a comparison, or the error for one without.
pub open spec fn compare_instr(op: CompareOp) -> Result<Instr, Seq<char>> {
    match op {
        CompareOp::Eq => Ok(Instr::Eq),
        CompareOp::NotEq => Ok(Instr::Ne),
        CompareOp::Lt => Ok(Instr::Lt),
        CompareOp::LtE => Ok(Instr::Le),
        CompareOp::Gt => Ok(Instr::Gt),
        CompareOp::GtE => Ok(Instr::Ge),
        CompareOp::In => Ok(Instr::Contains),
        CompareOp::NotIn => Ok(Instr::NotContains),
        CompareOp::Other(n) => Err("Unsupported comparison: "@ + n@),
    }
}

/// The instruction of a literal, or the error for one that cannot be loaded.
pub open spec fn constant_instr(c: Constant) -> Result<Instr, Seq<char>> {
    match c {
        Constant::Int(v) => if i32::MIN <= v <= i32::MAX {
            Ok(Instr::PushInt(v as i32))
        } else {
            Err("Integer overflow"@)
        },
        Constant::Float(b) => Ok(Instr::PushFloat(b)),
        Constant::Bool(b) => Ok(Instr::PushBool(b)),
        Constant::NoneValue => Ok(Instr::PushNone),
        Constant::Str(s) => Ok(Instr::PushString(s@)),
        Constant::Other => Err("Unsupported constant type"@),
    }
}

/// The built-in functions of one argument that compile to one instruction,
/// with the error for a wrong number of arguments.
pub open spec fn unary_builtin(name: Seq<char>) -> Option<(Instr, Seq<char>)> {
    if name == "int"@ {
        Some((Instr::Int, "int() takes exactly one argument"@))
    } else if name == "float"@ {
        Some((Instr::Float, "float() takes exactly one argument"@))
    } else if name == "str"@ {
        Some((Instr::Str, "str() takes exactly one argument"@))
    } else {
        None
    }
}

/// The jump of a short-circuit operator.
pub open spec fn bool_jump(op: BoolOp, target: int) -> Instr {
    match op {
        BoolOp::And => Instr::JumpIfFalseOrPop(target as usize),
        BoolOp::Or => Instr::JumpIfTrueOrPop(target as usize),
    }
}

/// The name of the list that the comprehension numbered `n` builds.
pub open spec fn listcomp_name(n: usize) -> Seq<char> {
    "_listcomp_"@ + decimal_text(n as nat)
}

/// The code of an expression laid out from position `base`, given the
/// parameter names of the enclosing function and the temporary-name counter.
pub open spec fn expr_code(e: SynExpr, locals: Seq<Seq<char>>, tmp: usize, base: int) -> Emit
    decreases e,
{
    match e {
        SynExpr::Constant(c) => match constant_instr(c) {
            Ok(i) => Ok((seq![i], tmp)),
            Err(m) => Err(m),
        },
        SynExpr::Name(n) => match type_named(n@) {
            Some(t) => Ok((seq![Instr::PushType(t)], tmp)),
            None => Ok((seq![load_name(locals, n@)], tmp)),
        },
        SynExpr::BinOp(l, op, r) => match expr_code(*l, locals, tmp, base) {
            Err(m) => Err(m),
            Ok((cl, t1)) => match expr_code(*r, locals, t1, base + cl.len()) {
                Err(m) => Err(m),
                Ok((cr, t2)) => match binop_instr(op) {
                    Some(i) => Ok((cl + cr.push(i), t2)),
                    None => Err("Unsupported operator: "@ + operator_text(op)),
                },
            },
        },
        SynExpr::Compare(l, ops, rights) => if ops@.len() != 1 || rights@.len() != 1 {
            Err("Only simple comparisons are supported"@)
        } else {
            match expr_code(*l, locals, tmp, base) {
                Err(m) => Err(m),
                Ok((cl, t1)) => match expr_code(rights@[0], locals, t1, base + cl.len()) {
                    Err(m) => Err(m),
                    Ok((cr, t2)) => match compare_instr(ops@[0]) {
                        Ok(i) => Ok((cl + cr.push(i), t2)),
                        Err(m) => Err(m),
                    },
                },
            }
        },
        SynExpr::Call(f, args) => match *f {
            SynExpr::Name(n) => if n@ == "print"@ {
                match exprs_code(args@, locals, tmp, base) {
                    Err(m) => Err(m),
                    Ok((c, t)) => Ok((c.push(Instr::Print(args@.len() as usize)), t)),
                }
            } else if unary_builtin(n@) is Some {
                let (i, msg) = unary_builtin(n@)->0;
                if args@.len() != 1 {
                    Err(msg)
                } else {
                    match expr_code(args@[0], locals, tmp, base) {
                        Err(m) => Err(m),
                        Ok((c, t)) => Ok((c.push(i), t)),
                    }
                }
            } else if n@ == "isinstance"@ {
                if args@.len() != 2 {
                    Err("isinstance() takes exactly 2 arguments ("@ + decimal_text(args@.len())
                        + " given)"@)
                } else {
                    match exprs_code(args@, locals, tmp, base) {
                        Err(m) => Err(m),
                        Ok((c, t)) => Ok((c.push(Instr::IsInstance), t)),
                    }
                }
            } else if n@ == "len"@ {
                if args@.len() != 1 {
                    Err("len() takes exactly one argument"@)
                } else {
                    match expr_code(args@[0], locals, tmp, base) {
                        Err(m) => Err(m),
                        Ok((c, t)) => Ok((c.push(Instr::Len), t)),
                    }
                }
            } else if n@ == "range"@ {
                if args@.len() == 0 || args@.len() > 3 {
                    Err("range() takes 1 to 3 arguments"@)
                } else {
                    match exprs_code(args@, locals, tmp, base + 1) {
                        Err(m) => Err(m),
                        Ok((c, t)) => Ok((
                            seq![Instr::PushInt(args@.len() as i32)] + c.push(Instr::Range),
                            t,
                        )),
                    }
                }
            } else {
                match exprs_code(args@, locals, tmp, base + 1) {
                    Err(m) => Err(m),
                    Ok((c, t)) => Ok((
                        seq![load_name_or_type(locals, n@)] + c.push(
                            Instr::Call(args@.len() as usize),
                        ),
                        t,
                    )),
                }
            },
            SynExpr::Attribute(obj, attr) => match expr_code(*obj, locals, tmp, base) {
                Err(m) => Err(m),
                Ok((co, t1)) => match exprs_code(args@, locals, t1, base + co.len()) {
                    Err(m) => Err(m),
                    Ok((ca, t2)) => Ok((
                        co + ca.push(Instr::CallMethod(attr@, args@.len() as usize)),
                        t2,
                    )),
                },
            },
            _ => match expr_code(*f, locals, tmp, base) {
                Err(m) => Err(m),
                Ok((cf, t1)) => match exprs_code(args@, locals, t1, base + cf.len()) {
                    Err(m) => Err(m),
                    Ok((ca, t2)) => Ok((cf + ca.push(Instr::Call(args@.len() as usize)), t2)),
                },
            },
        },
        SynExpr::List(elts) => match exprs_code(elts@, locals, tmp, base) {
            Err(m) => Err(m),
            Ok((c, t)) => Ok((c.push(Instr::BuildList(elts@.len() as usize)), t)),
        },
        SynExpr::ListComp(elt, gens) => if gens@.len() != 1 {
            Err("Nested list comprehensions not supported yet"@)
        } else {
            let g = gens@[0];
            let name = listcomp_name(tmp);
            match expr_code(g.iter, locals, next_tmp(tmp), base + 3) {
                Err(m) => Err(m),
                Ok((ci, t1)) => match g.target {
                    SynExpr::Name(v) => {
                        let loop_start = base + 3 + ci.len() + 1;
                        let fbase = loop_start + 3;
                        match filters_code(g.ifs@, locals, t1, fbase) {
                            Err(m) => Err(m),
                            Ok((cf, t2)) => {
                                let ebase = fbase + cf.len() + 1;
                                match expr_code(*elt, locals, t2, ebase) {
                                    Err(m) => Err(m),
                                    Ok((ce, t3)) => {
                                        let after = ebase + ce.len() + 2;
                                        let loop_end = after + 1;
                                        Ok((
                                            seq![
                                                Instr::BuildList(0),
                                                Instr::SetGlobal(name),
                                                Instr::Pop,
                                            ] + ci + seq![
                                                Instr::GetIter,
                                                Instr::ForIter(loop_end as usize),
                                                store_name(locals, v@),
                                                Instr::Pop,
                                            ] + placed(fill(cf, HoleKind::Skip, after as usize)) + seq![
                                                Instr::GetGlobal(name),
                                            ] + ce + seq![
                                                Instr::CallMethod("append"@, 1),
                                                Instr::Pop,
                                                Instr::Jump(loop_start as usize),
                                                Instr::GetGlobal(name),
                                            ],
                                            t3,
                                        ))
                                    },
                                }
                            },
                        }
                    },
                    _ => Err("Only simple variable names are supported in list comprehensions"@),
                },
            }
        },
        SynExpr::Tuple(elts) => match exprs_code(elts@, locals, tmp, base) {
            Err(m) => Err(m),
            Ok((c, t)) => Ok((c.push(Instr::BuildTuple(elts@.len() as usize)), t)),
        },
        SynExpr::Dict(items) => match dict_code(items@, locals, tmp, base) {
            Err(m) => Err(m),
            Ok((c, t)) => Ok((c.push(Instr::BuildDict(items@.len() as usize)), t)),
        },
        SynExpr::Subscript(obj, idx) => match expr_code(*obj, locals, tmp, base) {
            Err(m) => Err(m),
            Ok((co, t1)) => match *idx {
                SynExpr::Slice(lo, hi, st, _) => match slice_part(lo, locals, t1, base + co.len()) {
                    Err(m) => Err(m),
                    Ok((c1, t2)) => match slice_part(hi, locals, t2, base + co.len() + c1.len()) {
                        Err(m) => Err(m),
                        Ok((c2, t3)) => match slice_part(
                            st,
                            locals,
                            t3,
                            base + co.len() + c1.len() + c2.len(),
                        ) {
                            Err(m) => Err(m),
                            Ok((c3, t4)) => Ok((
                                co + c1 + c2 + c3 + seq![Instr::BuildSlice, Instr::GetItemSlice],
                                t4,
                            )),
                        },
                    },
                },
                _ => match expr_code(*idx, locals, t1, base + co.len()) {
                    Err(m) => Err(m),
                    Ok((ci, t2)) => Ok((co + ci.push(Instr::GetItem), t2)),
                },
            },
        },
        SynExpr::Slice(_, _, _, text) => Err("Unsupported expression: "@ + text@),
        SynExpr::Attribute(obj, attr) => match expr_code(*obj, locals, tmp, base) {
            Err(m) => Err(m),
            Ok((c, t)) => Ok((c.push(Instr::GetAttr(attr@)), t)),
        },
        SynExpr::UnaryOp(op, x) => match op {
            UnaryOp::Other(n) => Err("Unsupported unary operator: "@ + n@),
            _ => match expr_code(*x, locals, tmp, base) {
                Err(m) => Err(m),
                Ok((c, t)) => match op {
                    UnaryOp::USub => Ok((c.push(Instr::Negate), t)),
                    UnaryOp::Not => Ok((c.push(Instr::Not), t)),
                    _ => Ok((c, t)),
                },
            },
        },
        SynExpr::BoolOp(op, first, rest) => match expr_code(*first, locals, tmp, base) {
            Err(m) => Err(m),
            Ok((c0, t1)) => match bool_chain(op, rest@, locals, t1, base + c0.len()) {
                Err(m) => Err(m),
                Ok((cr, t2)) => Ok((c0 + cr, t2)),
            },
        },
        SynExpr::JoinedStr(parts) => if parts@.len() == 0 {
            Ok((seq![Instr::PushString(Seq::empty())], tmp))
        } else {
            match fstring_first(parts@[0], locals, tmp, base) {
                Err(m) => Err(m),
                Ok((c, t1)) => after_code(
                    c,
                    fstring_rest(parts@.drop_first(), locals, t1, base + c.len()),
                ),
            }
        },
        SynExpr::FormattedValue(_, text) => Err("Unsupported expression: "@ + text@),
        SynExpr::Await(x) => match expr_code(*x, locals, tmp, base) {
            Err(m) => Err(m),
            Ok((c, t)) => Ok((c.push(Instr::Await), t)),
        },
        SynExpr::Other(text) => Err("Unsupported expression: "@ + text@),
    }
}

/// A bare name that is called: a built-in type, else a variable.
pub open spec fn load_name_or_type(locals: Seq<Seq<char>>, name: Seq<char>) -> Instr {
    match type_named(name) {
        Some(t) => Instr::PushType(t),
        None => load_name(locals, name),
    }
}

/// `r` with the code `c` in front of its code.
pub open spec fn after_code(c: Seq<Instr>, r: Emit) -> Emit {
    match r {
        Ok((c2, t)) => Ok((c + c2, t)),
        Err(m) => Err(m),
    }
}

/// The code of expressions evaluated from left to right.
pub open spec fn exprs_code(es: Seq<SynExpr>, locals: Seq<Seq<char>>, tmp: usize, base: int) -> Emit
    decreases es,
{
    if es.len() == 0 {
        Ok((Seq::empty(), tmp))
    } else {
        match expr_code(es[0], locals, tmp, base) {
            Err(m) => Err(m),
            Ok((c, t1)) => after_code(c, exprs_code(es.drop_first(), locals, t1, base + c.len())),
        }
    }
}

/// One bound of a slice: its code, or `None` pushed where it is absent.
pub open spec fn slice_part(
    part: Option<Box<SynExpr>>,
    locals: Seq<Seq<char>>,
    tmp: usize,
    base: int,
) -> Emit
    decreases part,
{
    match part {
        Some(x) => expr_code(*x, locals, tmp, base),
        None => Ok((seq![Instr::PushNone], tmp)),
    }
}

/// The key and value code of the entries of a dict display.
pub open spec fn dict_code(items: Seq<DictItem>, locals: Seq<Seq<char>>, tmp: usize, base: int) -> Emit
    decreases items,
{
    if items.len() == 0 {
        Ok((Seq::empty(), tmp))
    } else {
        match items[0].key {
            None => Err("Dictionary unpacking not supported"@),
            Some(k) => match expr_code(k, locals, tmp, base) {
                Err(m) => Err(m),
                Ok((ck, t1)) => match expr_code(items[0].value, locals, t1, base + ck.len()) {
                    Err(m) => Err(m),
                    Ok((cv, t2)) => after_code(
                        ck + cv,
                        dict_code(items.drop_first(), locals, t2, base + ck.len() + cv.len()),
                    ),
                },
            },
        }
    }
}

/// The operands after the first of a short-circuit operator, each behind a
/// jump to the end of its own code.
pub open spec fn bool_chain(
    op: BoolOp,
    rest: Seq<SynExpr>,
    locals: Seq<Seq<char>>,
    tmp: usize,
    base: int,
) -> Emit
    decreases rest,
{
    if rest.len() == 0 {
        Ok((Seq::empty(), tmp))
    } else {
        match expr_code(rest[0], locals, tmp, base + 1) {
            Err(m) => Err(m),
            Ok((cv, t1)) => {
                let end = base + 1 + cv.len();
                after_code(
                    seq![bool_jump(op, end)] + cv,
                    bool_chain(op, rest.drop_first(), locals, t1, end),
                )
            },
        }
    }
}

/// The first part of a non-empty f-string, loaded as a string.
pub open spec fn fstring_first(part: SynExpr, locals: Seq<Seq<char>>, tmp: usize, base: int) -> Emit
    decreases part,
{
    match part {
        SynExpr::Constant(Constant::Str(s)) => Ok((seq![Instr::PushString(s@)], tmp)),
        SynExpr::Constant(_) => Ok((seq![Instr::PushString(Seq::empty())], tmp)),
        SynExpr::FormattedValue(v, _) => match expr_code(*v, locals, tmp, base) {
            Err(m) => Err(m),
            Ok((c, t)) => Ok((c.push(Instr::Str), t)),
        },
        _ => Err("Unsupported f-string component"@),
    }
}

/// The later parts of an f-string, each added to the string so far; an empty
/// or non-string literal part adds nothing.
pub open spec fn fstring_rest(parts: Seq<SynExpr>, locals: Seq<Seq<char>>, tmp: usize, base: int) -> Emit
    decreases parts,
{
    if parts.len() == 0 {
        Ok((Seq::empty(), tmp))
    } else {
        let here = match parts[0] {
            SynExpr::Constant(Constant::Str(s)) => if s@.len() > 0 {
                Ok((seq![Instr::PushString(s@), Instr::Add], tmp))
            } else {
                Ok((Seq::empty(), tmp))
            },
            SynExpr::Constant(_) => Ok((Seq::empty(), tmp)),
            SynExpr::FormattedValue(v, _) => match expr_code(*v, locals, tmp, base) {
                Err(m) => Err(m),
                Ok((cv, t1)) => Ok((cv + seq![Instr::Str, Instr::Add], t1)),
            },
            _ => Err("Unsupported f-string component"@),
        };
        match here {
            Err(m) => Err(m),
            Ok((c, t1)) => after_code(c, fstring_rest(parts.drop_first(), locals, t1, base + c.len())),
        }
    }
}

/// The filters of a comprehension, each followed by a hole that skips the
/// element when the filter is false.
pub open spec fn filters_code(
    ifs: Seq<SynExpr>,
    locals: Seq<Seq<char>>,
    tmp: usize,
    base: int,
) -> Result<(Seq<Slot>, usize), Seq<char>>
    decreases ifs,
{
    if ifs.len() == 0 {
        Ok((Seq::empty(), tmp))
    } else {
        match expr_code(ifs[0], locals, tmp, base) {
            Err(m) => Err(m),
            Ok((cf, t1)) => match filters_code(ifs.drop_first(), locals, t1, base + cf.len() + 1) {
                Err(m) => Err(m),
                Ok((rest, t2)) => Ok((lift(cf).push(Slot::Hole(HoleKind::Skip)) + rest, t2)),
            },
        }
    }
}



// ---------------------------------------------------------------------------
// Statements
// ---------------------------------------------------------------------------

/// An emitted template and the counter after it, or an error message.
pub type EmitT = Result<(Seq<Slot>, usize), Seq<char>>;

/// Expression code as a template.
pub open spec fn lifted(r: Emit) -> EmitT {
    match r {
        Ok((c, t)) => Ok((lift(c), t)),
        Err(m) => Err(m),
    }
}

/// The stores of an unpacking assignment, last target first.
pub open spec fn unpack_stores(elts: Seq<SynExpr>, locals: Seq<Seq<char>>) -> Result<Seq<Instr>, Seq<char>>
    decreases elts.len(),
{
    if elts.len() == 0 {
        Ok(Seq::empty())
    } else {
        match elts.last() {
            SynExpr::Name(n) => match unpack_stores(elts.drop_last(), locals) {
                Ok(c) => Ok(seq![store_name(locals, n@), Instr::Pop] + c),
                Err(m) => Err(m),
            },
            _ => Err("Unsupported unpacking target"@),
        }
    }
}

/// One target of an assignment, with the assigned value compiled for it.
pub open spec fn target_code(
    target: SynExpr,
    value: SynExpr,
    locals: Seq<Seq<char>>,
    tmp: usize,
    base: int,
) -> Emit {
    match target {
        SynExpr::Tuple(elts) => match expr_code(value, locals, tmp, base) {
            Err(m) => Err(m),
            Ok((cv, t1)) => match unpack_stores(elts@, locals) {
                Err(m) => Err(m),
                Ok(cs) => Ok((cv + seq![Instr::UnpackSequence(elts@.len() as usize)] + cs, t1)),
            },
        },
        SynExpr::Name(n) => match expr_code(value, locals, tmp, base) {
            Err(m) => Err(m),
            Ok((cv, t1)) => Ok((cv + seq![store_name(locals, n@), Instr::Pop], t1)),
        },
        SynExpr::Subscript(obj, idx) => match expr_code(value, locals, tmp, base) {
            Err(m) => Err(m),
            Ok((cv, t1)) => match expr_code(*obj, locals, t1, base + cv.len()) {
                Err(m) => Err(m),
                Ok((co, t2)) => match expr_code(*idx, locals, t2, base + cv.len() + co.len()) {
                    Err(m) => Err(m),
                    Ok((ci, t3)) => Ok((cv + co + ci + seq![Instr::SetItem, Instr::Pop], t3)),
                },
            },
        },
        _ => Err("Unsupported assignment target"@),
    }
}

/// The targets of an assignment, in order, each with the value compiled
/// again.
pub open spec fn assign_code(
    targets: Seq<SynExpr>,
    value: SynExpr,
    locals: Seq<Seq<char>>,
    tmp: usize,
    base: int,
) -> Emit
    decreases targets.len(),
{
    if targets.len() == 0 {
        Ok((Seq::empty(), tmp))
    } else {
        match target_code(targets[0], value, locals, tmp, base) {
            Err(m) => Err(m),
            Ok((c, t1)) => after_code(
                c,
                assign_code(targets.drop_first(), value, locals, t1, base + c.len()),
            ),
        }
    }
}

/// `import a as b, ...`: each module imported and bound.
pub open spec fn import_code(names: Seq<Alias>) -> Seq<Instr>
    decreases names.len(),
{
    if names.len() == 0 {
        Seq::empty()
    } else {
        let a = names[0];
        let bound = match a.asname {
            Some(x) => x@,
            None => a.name@,
        };
        seq![Instr::Import(a.name@), Instr::SetGlobal(bound), Instr::Pop] + import_code(
            names.drop_first(),
        )
    }
}

/// `from m import a as b, ...`: each name read from the module and bound.
pub open spec fn import_from_code(names: Seq<Alias>) -> Seq<Instr>
    decreases names.len(),
{
    if names.len() == 0 {
        Seq::empty()
    } else {
        let a = names[0];
        let bound = match a.asname {
            Some(x) => x@,
            None => a.name@,
        };
        seq![Instr::Dup, Instr::GetAttr(a.name@), Instr::SetGlobal(bound), Instr::Pop]
            + import_from_code(names.drop_first())
    }
}

/// The body of a function as the function runs it: ending in `return None`
/// where it does not end in a `return`.
pub open spec fn function_body(code: Seq<Instr>) -> Seq<Instr> {
    if code.len() > 0 && code.last() == Instr::Return {
        code
    } else {
        code + seq![Instr::PushNone, Instr::Return]
    }
}

/// A function definition: the function's code is compiled on its own, from
/// position 0, with its parameters as the local variables.
pub open spec fn function_code(
    name: Seq<char>,
    params: Seq<String>,
    body: Seq<SynStmt>,
    is_async: bool,
) -> Result<Seq<Instr>, Seq<char>>
    decreases body, 1int,
{
    match stmts_code(body, views(params), None, 0, 0) {
        Err(m) => Err(m),
        Ok((t, _)) => {
            let code = function_body(placed(t));
            Ok(seq![
                Instr::MakeFunction {
                    name: name,
                    params: views(params),
                    code_len: code.len() as usize,
                    is_async: is_async,
                },
            ] + code + if is_async {
                Seq::empty()
            } else {
                seq![Instr::PushNone]
            })
        },
    }
}

/// The variable that an `except ... as name` clause binds, or the exception
/// dropped.
pub open spec fn bind_code(name: Option<String>, locals: Seq<Seq<char>>) -> Seq<Instr> {
    match name {
        Some(v) => seq![store_name(locals, v@), Instr::Pop],
        None => seq![Instr::Pop],
    }
}

/// The exception type named in an `except` clause.
pub open spec fn handler_type(te: SynExpr) -> Result<ExceptionType, Seq<char>> {
    match te {
        SynExpr::Name(n) => match exception_named(n@) {
            Some(t) => Ok(t),
            None => Err("Unknown exception type: "@ + n@),
        },
        _ => Err("Exception type must be a name"@),
    }
}

/// The code of a statement laid out from position `base`, as a template
/// whose holes are the `break` jumps of the innermost enclosing loop, whose
/// start is `lp`.
pub open spec fn stmt_code(
    s: SynStmt,
    locals: Seq<Seq<char>>,
    lp: Option<usize>,
    tmp: usize,
    base: int,
) -> EmitT
    decreases s, 3int,
{
    match s {
        SynStmt::Assign(targets, value) => lifted(assign_code(targets@, value, locals, tmp, base)),
        SynStmt::FunctionDef(name, params, body) => match function_code(
            name@,
            params@,
            body@,
            false,
        ) {
            Ok(c) => Ok((lift(c), tmp)),
            Err(m) => Err(m),
        },
        SynStmt::AsyncFunctionDef(name, params, body) => match function_code(
            name@,
            params@,
            body@,
            true,
        ) {
            Ok(c) => Ok((lift(c), tmp)),
            Err(m) => Err(m),
        },
        SynStmt::Return(v) => match v {
            Some(x) => match expr_code(x, locals, tmp, base) {
                Err(m) => Err(m),
                Ok((c, t)) => Ok((lift(c.push(Instr::Return)), t)),
            },
            None => Ok((lift(seq![Instr::PushNone, Instr::Return]), tmp)),
        },
        SynStmt::If(test, body, orelse) => match expr_code(test, locals, tmp, base) {
            Err(m) => Err(m),
            Ok((ct, t1)) => match stmts_code(body@, locals, lp, t1, base + ct.len() + 1) {
                Err(m) => Err(m),
                Ok((bt, t2)) => {
                    let has_else = orelse@.len() > 0;
                    let else_start = base + ct.len() + 1 + bt.len() + if has_else {
                        1int
                    } else {
                        0int
                    };
                    match stmts_code(orelse@, locals, lp, t2, else_start) {
                        Err(m) => Err(m),
                        Ok((ot, t3)) => {
                            let end = else_start + ot.len();
                            Ok((
                                lift(ct) + seq![Slot::Op(Instr::JumpIfFalse(else_start as usize))]
                                    + bt + if has_else {
                                    seq![Slot::Op(Instr::Jump(end as usize))]
                                } else {
                                    Seq::empty()
                                } + ot,
                                t3,
                            ))
                        },
                    }
                },
            },
        },
        SynStmt::While(test, body) => match expr_code(test, locals, tmp, base) {
            Err(m) => Err(m),
            Ok((ct, t1)) => match stmts_code(
                body@,
                locals,
                Some(base as usize),
                t1,
                base + ct.len() + 1,
            ) {
                Err(m) => Err(m),
                Ok((bt, t2)) => {
                    let end = base + ct.len() + 1 + bt.len() + 1;
                    Ok((
                        lift(ct) + seq![Slot::Op(Instr::JumpIfFalse(end as usize))] + fill(
                            bt,
                            HoleKind::Break,
                            end as usize,
                        ) + seq![Slot::Op(Instr::Jump(base as usize))],
                        t2,
                    ))
                },
            },
        },
        SynStmt::For(target, iter, body) => match expr_code(iter, locals, tmp, base) {
            Err(m) => Err(m),
            Ok((ci, t1)) => match target {
                SynExpr::Name(v) => {
                    let loop_start = base + ci.len() + 1;
                    match stmts_code(body@, locals, Some(loop_start as usize), t1, loop_start + 3) {
                        Err(m) => Err(m),
                        Ok((bt, t2)) => {
                            let end = loop_start + 3 + bt.len() + 1;
                            Ok((
                                lift(ci) + seq![
                                    Slot::Op(Instr::GetIter),
                                    Slot::Op(Instr::ForIter(end as usize)),
                                    Slot::Op(store_name(locals, v@)),
                                    Slot::Op(Instr::Pop),
                                ] + fill(bt, HoleKind::Break, end as usize) + seq![
                                    Slot::Op(Instr::Jump(loop_start as usize)),
                                    Slot::Op(Instr::Pop),
                                ],
                                t2,
                            ))
                        },
                    }
                },
                _ => Err("Only simple variable names are supported in for loops"@),
            },
        },
        SynStmt::Expr(e) => match expr_code(e, locals, tmp, base) {
            Err(m) => Err(m),
            Ok((c, t)) => Ok((lift(c.push(Instr::Pop)), t)),
        },
        SynStmt::Raise(exc) => match exc {
            None => Err("bare raise not supported yet"@),
            Some(x) => match x {
                SynExpr::Call(f, args) => match *f {
                    SynExpr::Name(n) => match exception_named(n@) {
                        None => Err("Unknown exception type: "@ + n@),
                        Some(et) => if args@.len() != 1 {
                            Err("Exception requires exactly one argument"@)
                        } else {
                            match expr_code(args@[0], locals, tmp, base) {
                                Err(m) => Err(m),
                                Ok((c, t)) => Ok((
                                    lift(c + seq![Instr::MakeException(et), Instr::Raise]),
                                    t,
                                )),
                            }
                        },
                    },
                    _ => match expr_code(x, locals, tmp, base) {
                        Err(m) => Err(m),
                        Ok((c, t)) => Ok((lift(c.push(Instr::Raise)), t)),
                    },
                },
                _ => match expr_code(x, locals, tmp, base) {
                    Err(m) => Err(m),
                    Ok((c, t)) => Ok((lift(c.push(Instr::Raise)), t)),
                },
            },
        },
        SynStmt::Try(_, _, finalbody) => if finalbody@.len() > 0 {
            try_finally_code(s, locals, lp, tmp, base)
        } else {
            try_except_code(s, locals, lp, tmp, base)
        },
        SynStmt::Pass => Ok((Seq::empty(), tmp)),
        SynStmt::Break => match lp {
            None => Err("'break' outside loop"@),
            Some(_) => Ok((seq![Slot::Hole(HoleKind::Break)], tmp)),
        },
        SynStmt::Continue => match lp {
            None => Err("'continue' outside loop"@),
            Some(start) => Ok((seq![Slot::Op(Instr::Jump(start))], tmp)),
        },
        SynStmt::Import(names) => Ok((lift(import_code(names@)), tmp)),
        SynStmt::ImportFrom(module, names) => match module {
            None => Err("from import without module name"@),
            Some(m) => Ok((
                lift(seq![Instr::Import(m@)] + import_from_code(names@) + seq![Instr::Pop]),
                tmp,
            )),
        },
        SynStmt::AugAssign(target, op, value) => match target {
            SynExpr::Name(n) => match expr_code(value, locals, tmp, base + 1) {
                Err(m) => Err(m),
                Ok((cv, t1)) => match binop_instr(op) {
                    None => Err("Unsupported augmented operator: "@ + operator_text(op)),
                    Some(i) => Ok((
                        lift(seq![load_name(locals, n@)] + cv + seq![
                            i,
                            store_name(locals, n@),
                            Instr::Pop,
                        ]),
                        t1,
                    )),
                },
            },
            _ => Err("Augmented assignment only supports simple variables"@),
        },
        SynStmt::Other(text) => Err("Unsupported statement: "@ + text@),
    }
}

/// Statements in order.
pub open spec fn stmts_code(
    ss: Seq<SynStmt>,
    locals: Seq<Seq<char>>,
    lp: Option<usize>,
    tmp: usize,
    base: int,
) -> EmitT
    decreases ss, 0int,
{
    if ss.len() == 0 {
        Ok((Seq::empty(), tmp))
    } else {
        match stmt_code(ss[0], locals, lp, tmp, base) {
            Err(m) => Err(m),
            Ok((t, t1)) => after_slots(t, stmts_code(ss.drop_first(), locals, lp, t1, base + t.len())),
        }
    }
}

/// One `except` clause, ending in a hole that jumps past the whole `try`
/// statement.
pub open spec fn handler_code(
    h: ExceptHandler,
    locals: Seq<Seq<char>>,
    lp: Option<usize>,
    tmp: usize,
    base: int,
) -> EmitT
    decreases h, 1int,
{
    match h.type_ {
        Some(te) => match handler_type(te) {
            Err(m) => Err(m),
            Ok(et) => {
                let head = seq![
                    Instr::Dup,
                    Instr::PushInt(et.code() as i32),
                    Instr::MatchException,
                ];
                let bind = bind_code(h.name, locals);
                match stmts_code(h.body@, locals, lp, tmp, base + 5 + bind.len()) {
                    Err(m) => Err(m),
                    Ok((bt, t1)) => {
                        let next = base + 5 + bind.len() + bt.len() + 1;
                        Ok((
                            lift(head) + seq![
                                Slot::Op(Instr::JumpIfFalse(next as usize)),
                                Slot::Op(Instr::Pop),
                            ] + lift(bind) + bt + seq![
                                Slot::Hole(HoleKind::Exit),
                                Slot::Op(Instr::Pop),
                            ],
                            t1,
                        ))
                    },
                }
            },
        },
        None => {
            let bind = bind_code(h.name, locals);
            match stmts_code(h.body@, locals, lp, tmp, base + bind.len()) {
                Err(m) => Err(m),
                Ok((bt, t1)) => Ok((lift(bind) + bt + seq![Slot::Hole(HoleKind::Exit)], t1)),
            }
        },
    }
}

/// The `except` clauses of a `try` statement, each ending in a hole that
/// jumps past the whole statement.
pub open spec fn handlers_code(
    hs: Seq<ExceptHandler>,
    locals: Seq<Seq<char>>,
    lp: Option<usize>,
    tmp: usize,
    base: int,
) -> EmitT
    decreases hs, 0int,
{
    if hs.len() == 0 {
        Ok((Seq::empty(), tmp))
    } else {
        let here = handler_code(hs[0], locals, lp, tmp, base);
        match here {
            Err(m) => Err(m),
            Ok((t, t1)) => after_slots(
                t,
                handlers_code(hs.drop_first(), locals, lp, t1, base + t.len()),
            ),
        }
    }
}

/// A `try` statement with `except` clauses and no `finally`: the body under
/// a handler, then the clauses in order, then a re-raise when none matched.
pub open spec fn try_except_code(
    s: SynStmt,
    locals: Seq<Seq<char>>,
    lp: Option<usize>,
    tmp: usize,
    base: int,
) -> EmitT
    decreases s, 1int,
{
    match s {
        SynStmt::Try(body, handlers, _) => match stmts_code(body@, locals, lp, tmp, base + 1) {
            Err(m) => Err(m),
            Ok((bt, t1)) => {
                let except_start = base + 1 + bt.len() + 2;
                match handlers_code(handlers@, locals, lp, t1, except_start) {
                    Err(m) => Err(m),
                    Ok((ht, t2)) => {
                        let after = except_start + ht.len() + 1;
                        Ok((
                            fill(
                                seq![Slot::Op(Instr::SetupTry(except_start as usize))] + bt + seq![
                                    Slot::Op(Instr::PopTry),
                                    Slot::Hole(HoleKind::Exit),
                                ] + ht + seq![Slot::Op(Instr::Raise)],
                                HoleKind::Exit,
                                after as usize,
                            ),
                            t2,
                        ))
                    },
                }
            },
        },
        _ => Err(Seq::empty()),
    }
}

/// A `try` statement with a `finally` body: the rest of the statement under
/// a `finally` handler, then the `finally` body, which runs either way.
pub open spec fn try_finally_code(
    s: SynStmt,
    locals: Seq<Seq<char>>,
    lp: Option<usize>,
    tmp: usize,
    base: int,
) -> EmitT
    decreases s, 2int,
{
    match s {
        SynStmt::Try(body, handlers, finalbody) => {
            let inner = if handlers@.len() > 0 {
                try_except_code(s, locals, lp, tmp, base + 1)
            } else {
                stmts_code(body@, locals, lp, tmp, base + 1)
            };
            match inner {
                Err(m) => Err(m),
                Ok((it, t1)) => {
                    let finally_start = base + 1 + it.len() + 3;
                    match stmts_code(finalbody@, locals, lp, t1, finally_start) {
                        Err(m) => Err(m),
                        Ok((ft, t2)) => Ok((
                            seq![Slot::Op(Instr::SetupFinally(finally_start as usize))] + it
                                + seq![
                                Slot::Op(Instr::PopFinally),
                                Slot::Op(Instr::PushNone),
                                Slot::Op(Instr::Jump(finally_start as usize)),
                            ] + ft + seq![Slot::Op(Instr::EndFinally)],
                            t2,
                        )),
                    }
                },
            }
        },
        _ => Err(Seq::empty()),
    }
}

/// The code of a module: its statements in order, where a final expression
/// statement leaves its value on the stack.
pub open spec fn module_code(ss: Seq<SynStmt>) -> Result<Seq<Instr>, Seq<char>> {
    if ss.len() == 0 {
        Ok(Seq::empty())
    } else {
        let init = ss.drop_last();
        match stmts_code(init, Seq::empty(), None, 0, 0) {
            Err(m) => Err(m),
            Ok((t, n)) => match ss.last() {
                SynStmt::Expr(e) => match expr_code(e, Seq::empty(), n, t.len() as int) {
                    Err(m) => Err(m),
                    Ok((c, _)) => Ok(placed(t) + c),
                },
                last => match stmt_code(last, Seq::empty(), None, n, t.len() as int) {
                    Err(m) => Err(m),
                    Ok((t2, _)) => Ok(placed(t) + placed(t2)),
                },
            },
        }
    }
}

/// The code of a whole program: every statement of a module in order, the
/// value of a final expression statement left on the stack; or the code of a
/// lone expression.
pub open spec fn program_code(p: Program) -> Result<Seq<Instr>, Seq<char>> {
    match p {
        Program::Module(ss) => module_code(ss@),
        Program::Expression(e) => match expr_code(e, Seq::empty(), 0, 0) {
            Err(m) => Err(m),
            Ok((c, _)) => Ok(c),
        },
    }
}

/// `r` with the template `t` in front of its template.
pub open spec fn after_slots(
    t: Seq<Slot>,
    r: Result<(Seq<Slot>, usize), Seq<char>>,
) -> Result<(Seq<Slot>, usize), Seq<char>> {
    match r {
        Ok((t2, n)) => Ok((t + t2, n)),
        Err(m) => Err(m),
    }
}

/// The emitted code of a successful compilation.
pub open spec fn code_of(r: Emit) -> Seq<Instr> {
    match r {
        Ok((c, _)) => c,
        Err(_) => Seq::empty(),
    }
}

/// Putting `b` and then `a` in front of emitted code is putting `a + b`
/// in front of it.
pub proof fn lemma_after_code_assoc(a: Seq<Instr>, b: Seq<Instr>, r: Emit)
    ensures
        after_code(a, after_code(b, r)) == after_code(a + b, r),
{
    if let Ok((c, t)) = r {
        assert(a + (b + c) =~= (a + b) + c);
    }
}

/// Putting `b` and then `a` in front of an emitted template is putting
/// `a + b` in front of it.
pub proof fn lemma_after_slots_assoc(a: Seq<Slot>, b: Seq<Slot>, r: Result<(Seq<Slot>, usize), Seq<char>>)
    ensures
        after_slots(a, after_slots(b, r)) == after_slots(a + b, r),
{
    if let Ok((c, t)) = r {
        assert(a + (b + c) =~= (a + b) + c);
    }
}

// ---------------------------------------------------------------------------
// The compiler
// ---------------------------------------------------------------------------

/// A loop being compiled: where `continue` jumps, and the places of the
/// `break` jumps that wait for the loop's end.
pub struct LoopContext {
    pub start: usize,
    pub break_jumps: Vec<usize>,
}

/// The compiler's state within one function body (or the module): the
/// parameter names, the loops being compiled, and the counter that names
/// the lists of list comprehensions.
pub struct Compiler {
    local_vars: Vec<String>,
    loop_stack: Vec<LoopContext>,
    temp_counter: usize,
}

/// How a compiling function's result relates to what the spec says it emits.
pub open spec fn emitted(
    spec: Emit,
    res: Result<(), String>,
    before: Seq<Instruction>,
    after: Seq<Instruction>,
    tmp: usize,
) -> bool {
    match spec {
        Ok((c, t)) => {
            &&& res is Ok
            &&& code_view(after) == code_view(before) + c
            &&& after.len() == before.len() + c.len()
            &&& tmp == t
        },
        Err(m) => res matches Err(x) && x@ == m,
    }
}

/// Appends one instruction.
fn emit(bc: &mut ByteCode, i: Instruction)
    ensures
        code_view(final(bc)@) == code_view(old(bc)@).push(i@),
        final(bc)@.len() == old(bc)@.len() + 1,
{
    bc.push(i);
    assert(code_view(bc@) =~= code_view(old(bc)@).push(i@));
}

/// An error with the message `msg`.
fn fail(msg: &str) -> (res: Result<(), String>)
    ensures
        res matches Err(m) && m@ == msg@,
{
    Err(String::from_str(msg))
}

/// An error with the message `a` followed by `b`.
fn fail2(a: &str, b: &str) -> (res: Result<(), String>)
    ensures
        res matches Err(m) && m@ == a@ + b@,
{
    let mut m = String::from_str(a);
    m.append(b);
    Err(m)
}

/// The built-in type that a bare name stands for.
fn type_of_name(name: &str) -> (res: Option<TypeObject>)
    ensures
        res == type_named(name@),
{
    if str_eq(name, "int") {
        Some(TypeObject::Int)
    } else if str_eq(name, "float") {
        Some(TypeObject::Float)
    } else if str_eq(name, "bool") {
        Some(TypeObject::Bool)
    } else if str_eq(name, "str") {
        Some(TypeObject::Str)
    } else if str_eq(name, "list") {
        Some(TypeObject::List)
    } else if str_eq(name, "dict") {
        Some(TypeObject::Dict)
    } else if str_eq(name, "tuple") {
        Some(TypeObject::Tuple)
    } else {
        None
    }
}

/// The exception type that a name in `raise` or `except` stands for.
fn exception_of_name(name: &str) -> (res: Option<ExceptionType>)
    ensures
        res == exception_named(name@),
{
    if str_eq(name, "ValueError") {
        Some(ExceptionType::ValueError)
    } else if str_eq(name, "TypeError") {
        Some(ExceptionType::TypeError)
    } else if str_eq(name, "IndexError") {
        Some(ExceptionType::IndexError)
    } else if str_eq(name, "KeyError") {
        Some(ExceptionType::KeyError)
    } else if str_eq(name, "ZeroDivisionError") {
        Some(ExceptionType::ZeroDivisionError)
    } else if str_eq(name, "RuntimeError") {
        Some(ExceptionType::RuntimeError)
    } else if str_eq(name, "IteratorError") {
        Some(ExceptionType::IteratorError)
    } else if str_eq(name, "OSError") {
        Some(ExceptionType::OSError)
    } else if str_eq(name, "AttributeError") {
        Some(ExceptionType::AttributeError)
    } else if str_eq(name, "Exception") {
        Some(ExceptionType::Exception)
    } else {
        None
    }
}

/// The instruction of a built-in function of one argument, with the error
/// for a wrong number of arguments.
fn unary_builtin_of(name: &str) -> (res: Option<(Instruction, &'static str)>)
    ensures
        match unary_builtin(name@) {
            Some((i, m)) => res matches Some((x, y)) && x@ == i && y@ == m,
            None => res is None,
        },
{
    if str_eq(name, "int") {
        Some((Instruction::Int, "int() takes exactly one argument"))
    } else if str_eq(name, "float") {
        Some((Instruction::Float, "float() takes exactly one argument"))
    } else if str_eq(name, "str") {
        Some((Instruction::Str, "str() takes exactly one argument"))
    } else {
        None
    }
}

/// The instruction of an arithmetic operator.
fn binop_of(op: &Operator) -> (res: Option<Instruction>)
    ensures
        match binop_instr(*op) {
            Some(i) => res matches Some(x) && x@ == i,
            None => res is None,
        },
{
    match op {
        Operator::Add => Some(Instruction::Add),
        Operator::Sub => Some(Instruction::Sub),
        Operator::Mult => Some(Instruction::Mul),
        Operator::Div => Some(Instruction::Div),
        Operator::Mod => Some(Instruction::Mod),
        Operator::Other(_) => None,
    }
}

/// The jump of a short-circuit operator.
fn bool_jump_of(op: &BoolOp, target: usize) -> (res: Instruction)
    ensures
        res@ == bool_jump(*op, target as int),
{
    match op {
        BoolOp::And => Instruction::JumpIfFalseOrPop(target),
        BoolOp::Or => Instruction::JumpIfTrueOrPop(target),
    }
}

impl Compiler {
    /// The parameter names, as sequences of characters.
    pub closed spec fn locals(&self) -> Seq<Seq<char>> {
        views(self.local_vars@)
    }

    /// The index of a local variable: the last parameter of that name.
    fn local_slot(&self, name: &str) -> (res: Option<usize>)
        ensures
            match local_index(self.locals(), name@) {
                Some(i) => res == Some(i as usize),
                None => res is None,
            },
    {
        let mut i = self.local_vars.len();
        assert(self.local_vars@.subrange(0, i as int) =~= self.local_vars@);
        while i > 0
            invariant
                i <= self.local_vars@.len(),
                local_index(self.locals(), name@) == local_index(
                    views(self.local_vars@.subrange(0, i as int)),
                    name@,
                ),
            decreases i,
        {
            let ghost pre = views(self.local_vars@.subrange(0, i as int));
            assert(pre.drop_last() =~= views(self.local_vars@.subrange(0, i - 1)));
            assert(pre.last() == self.local_vars@[i - 1]@);
            if str_eq(self.local_vars[i - 1].as_str(), name) {
                return Some(i - 1);
            }
            i = i - 1;
        }
        assert(views(self.local_vars@.subrange(0, 0)) =~= Seq::<Seq<char>>::empty());
        None
    }

    /// The instruction that reads a variable.
    fn load_of(&self, name: &String) -> (res: Instruction)
        ensures
            res@ == load_name(self.locals(), name@),
    {
        match self.local_slot(name.as_str()) {
            Some(i) => Instruction::GetLocal(i),
            None => Instruction::GetGlobal(name.clone()),
        }
    }

    /// The instruction that writes a variable.
    fn store_of(&self, name: &String) -> (res: Instruction)
        ensures
            res@ == store_name(self.locals(), name@),
    {
        match self.local_slot(name.as_str()) {
            Some(i) => Instruction::SetLocal(i),
            None => Instruction::SetGlobal(name.clone()),
        }
    }

    /// The instruction that loads a bare name: a built-in type, else a
    /// variable.
    fn load_name_of(&self, name: &String) -> (res: Instruction)
        ensures
            res@ == load_name_or_type(self.locals(), name@),
    {
        match type_of_name(name.as_str()) {
            Some(t) => Instruction::PushType(t),
            None => self.load_of(name),
        }
    }

}


impl Compiler {
    /// Compiles an expression: appends exactly `expr_code` of it, or fails
    /// with its error.
    fn compile_expr(&mut self, e: &SynExpr, bc: &mut ByteCode) -> (res: Result<(), String>)
        ensures
            final(self).local_vars == old(self).local_vars,
            final(self).loop_stack == old(self).loop_stack,
            emitted(
                expr_code(*e, old(self).locals(), old(self).temp_counter, old(bc)@.len() as int),
                res,
                old(bc)@,
                final(bc)@,
                final(self).temp_counter,
            ),
            (e is Other || e is FormattedValue || (e matches SynExpr::Constant(c) && constant_instr(*c) is Err))
                ==> final(bc)@ == old(bc)@,
        decreases e, 2int,
    {
        let ghost b0 = code_view(bc@);
        match e {
            SynExpr::Constant(c) => {
                let i = match c {
                    Constant::Int(v) => {
                        if *v < -2147483648i64 || *v > 2147483647i64 {
                            return fail("Integer overflow");
                        }
                        Instruction::PushInt(*v as i32)
                    },
                    Constant::Float(b) => Instruction::PushFloat(*b),
                    Constant::Bool(b) => Instruction::PushBool(*b),
                    Constant::NoneValue => Instruction::PushNone,
                    Constant::Str(s) => Instruction::PushString(s.clone()),
                    Constant::Other => {
                        return fail("Unsupported constant type");
                    },
                };
                emit(bc, i);
                assert(code_view(bc@) =~= b0 + seq![i@]);
                Ok(())
            },
            SynExpr::Name(n) => {
                let i = self.load_name_of(n);
                emit(bc, i);
                assert(code_view(bc@) =~= b0 + seq![i@]);
                Ok(())
            },
            SynExpr::BinOp(..) => self.compile_operator(e, bc),
            SynExpr::Compare(..) => self.compile_operator(e, bc),
            SynExpr::UnaryOp(..) => self.compile_operator(e, bc),
            SynExpr::Attribute(..) => self.compile_operator(e, bc),
            SynExpr::Await(..) => self.compile_operator(e, bc),
            SynExpr::Call(..) => self.compile_call(e, bc),
            SynExpr::List(..) => self.compile_collection(e, bc),
            SynExpr::Tuple(..) => self.compile_collection(e, bc),
            SynExpr::Dict(..) => self.compile_collection(e, bc),
            SynExpr::Subscript(..) => self.compile_subscript(e, bc),
            SynExpr::ListComp(_, gens) => {
                if gens.len() != 1 {
                    return fail("Nested list comprehensions not supported yet");
                }
                self.compile_listcomp(e, bc)
            },
            SynExpr::BoolOp(..) => self.compile_joined(e, bc),
            SynExpr::JoinedStr(..) => self.compile_joined(e, bc),
            SynExpr::Slice(_, _, _, text) => fail2("Unsupported expression: ", text.as_str()),
            SynExpr::FormattedValue(_, text) => fail2("Unsupported expression: ", text.as_str()),
            SynExpr::Other(text) => fail2("Unsupported expression: ", text.as_str()),
        }
    }

    /// Compiles an operator application, an attribute read or an `await`.
    fn compile_operator(&mut self, e: &SynExpr, bc: &mut ByteCode) -> (res: Result<(), String>)
        requires
            e is BinOp || e is Compare || e is UnaryOp || e is Attribute || e is Await,
        ensures
            final(self).local_vars == old(self).local_vars,
            final(self).loop_stack == old(self).loop_stack,
            emitted(
                expr_code(*e, old(self).locals(), old(self).temp_counter, old(bc)@.len() as int),
                res,
                old(bc)@,
                final(bc)@,
                final(self).temp_counter,
            ),
        decreases e, 1int,
    {
        let ghost b0 = code_view(bc@);
        let ghost base = bc@.len() as int;
        let ghost locals = self.locals();
        let ghost t0 = self.temp_counter;
        match e {
            SynExpr::BinOp(l, op, r) => {
                let ghost cl = code_of(expr_code(**l, locals, t0, base));
                match self.compile_expr(l, bc) {
                    Err(m) => { return Err(m); },
                    Ok(_) => {},
                }
                let ghost t1 = self.temp_counter;
                let ghost cr = code_of(expr_code(**r, locals, t1, base + cl.len()));
                match self.compile_expr(r, bc) {
                    Err(m) => { return Err(m); },
                    Ok(_) => {},
                }
                match binop_of(op) {
                    Some(i) => {
                        emit(bc, i);
                        assert(code_view(bc@) =~= b0 + (cl + cr.push(i@)));
                        Ok(())
                    },
                    None => match op {
                        Operator::Other(n) => fail2("Unsupported operator: ", n.as_str()),
                        _ => fail(""),
                    },
                }
            },
            SynExpr::Compare(l, ops, rights) => {
                if ops.len() != 1 || rights.len() != 1 {
                    return fail("Only simple comparisons are supported");
                }
                let ghost cl = code_of(expr_code(**l, locals, t0, base));
                match self.compile_expr(l, bc) {
                    Err(m) => { return Err(m); },
                    Ok(_) => {},
                }
                let ghost t1 = self.temp_counter;
                let ghost cr = code_of(expr_code(rights@[0], locals, t1, base + cl.len()));
                match self.compile_expr(&rights[0], bc) {
                    Err(m) => { return Err(m); },
                    Ok(_) => {},
                }
                let i = match &ops[0] {
                    CompareOp::Eq => Instruction::Eq,
                    CompareOp::NotEq => Instruction::Ne,
                    CompareOp::Lt => Instruction::Lt,
                    CompareOp::LtE => Instruction::Le,
                    CompareOp::Gt => Instruction::Gt,
                    CompareOp::GtE => Instruction::Ge,
                    CompareOp::In => Instruction::Contains,
                    CompareOp::NotIn => Instruction::NotContains,
                    CompareOp::Other(n) => {
                        return fail2("Unsupported comparison: ", n.as_str());
                    },
                };
                emit(bc, i);
                assert(code_view(bc@) =~= b0 + (cl + cr.push(i@)));
                Ok(())
            },
            SynExpr::Attribute(obj, attr) => {
                let ghost co = code_of(expr_code(**obj, locals, t0, base));
                match self.compile_expr(obj, bc) {
                    Err(m) => { return Err(m); },
                    Ok(_) => {},
                }
                let i = Instruction::GetAttr(attr.clone());
                emit(bc, i);
                assert(code_view(bc@) =~= b0 + co.push(i@));
                Ok(())
            },
            SynExpr::Await(x) => {
                let ghost cx = code_of(expr_code(**x, locals, t0, base));
                match self.compile_expr(x, bc) {
                    Err(m) => { return Err(m); },
                    Ok(_) => {},
                }
                emit(bc, Instruction::Await);
                assert(code_view(bc@) =~= b0 + cx.push(Instr::Await));
                Ok(())
            },
            SynExpr::UnaryOp(op, x) => {
                if let UnaryOp::Other(n) = op {
                    return fail2("Unsupported unary operator: ", n.as_str());
                }
                let ghost cx = code_of(expr_code(**x, locals, t0, base));
                match self.compile_expr(x, bc) {
                    Err(m) => { return Err(m); },
                    Ok(_) => {},
                }
                match op {
                    UnaryOp::USub => {
                        emit(bc, Instruction::Negate);
                        assert(code_view(bc@) =~= b0 + cx.push(Instr::Negate));
                    },
                    UnaryOp::Not => {
                        emit(bc, Instruction::Not);
                        assert(code_view(bc@) =~= b0 + cx.push(Instr::Not));
                    },
                    _ => {},
                }
                Ok(())
            },
            _ => fail(""),
        }
    }

    /// Compiles a list, tuple or dict display.
    fn compile_collection(&mut self, e: &SynExpr, bc: &mut ByteCode) -> (res: Result<(), String>)
        requires
            e is List || e is Tuple || e is Dict,
        ensures
            final(self).local_vars == old(self).local_vars,
            final(self).loop_stack == old(self).loop_stack,
            emitted(
                expr_code(*e, old(self).locals(), old(self).temp_counter, old(bc)@.len() as int),
                res,
                old(bc)@,
                final(bc)@,
                final(self).temp_counter,
            ),
        decreases e, 1int,
    {
        let ghost b0 = code_view(bc@);
        let ghost base = bc@.len() as int;
        let ghost locals = self.locals();
        let ghost t0 = self.temp_counter;
        match e {
            SynExpr::List(elts) => {
                let ghost c = code_of(exprs_code(elts@, locals, t0, base));
                match self.compile_exprs(elts, bc) {
                    Err(m) => { return Err(m); },
                    Ok(_) => {},
                }
                let i = Instruction::BuildList(elts.len());
                emit(bc, i);
                assert(code_view(bc@) =~= b0 + c.push(i@));
                Ok(())
            },
            SynExpr::Tuple(elts) => {
                let ghost c = code_of(exprs_code(elts@, locals, t0, base));
                match self.compile_exprs(elts, bc) {
                    Err(m) => { return Err(m); },
                    Ok(_) => {},
                }
                let i = Instruction::BuildTuple(elts.len());
                emit(bc, i);
                assert(code_view(bc@) =~= b0 + c.push(i@));
                Ok(())
            },
            SynExpr::Dict(items) => {
                let ghost c = code_of(dict_code(items@, locals, t0, base));
                match self.compile_dict(items, bc) {
                    Err(m) => { return Err(m); },
                    Ok(_) => {},
                }
                let i = Instruction::BuildDict(items.len());
                emit(bc, i);
                assert(code_view(bc@) =~= b0 + c.push(i@));
                Ok(())
            },
            _ => fail(""),
        }
    }

    /// Compiles a subscript: a slice of the object, or one item of it.
    #[verifier::rlimit(40)]
    #[verifier::spinoff_prover]
    fn compile_subscript(&mut self, e: &SynExpr, bc: &mut ByteCode) -> (res: Result<(), String>)
        requires
            e is Subscript,
        ensures
            final(self).local_vars == old(self).local_vars,
            final(self).loop_stack == old(self).loop_stack,
            emitted(
                expr_code(*e, old(self).locals(), old(self).temp_counter, old(bc)@.len() as int),
                res,
                old(bc)@,
                final(bc)@,
                final(self).temp_counter,
            ),
        decreases e, 1int,
    {
        let ghost b0 = code_view(bc@);
        let ghost base = bc@.len() as int;
        let ghost locals = self.locals();
        let ghost t0 = self.temp_counter;
        match e {
            SynExpr::Subscript(obj, idx) => {
                let ghost co = code_of(expr_code(**obj, locals, t0, base));
                match self.compile_expr(obj, bc) {
                    Err(m) => { return Err(m); },
                    Ok(_) => {},
                }
                let ghost t1 = self.temp_counter;
                match &**idx {
                    SynExpr::Slice(lo, hi, st, _) => {
                        let ghost c1 = code_of(slice_part(*lo, locals, t1, base + co.len()));
                        match self.compile_slice_part(lo, bc) {
                            Err(m) => { return Err(m); },
                            Ok(_) => {},
                        }
                        let ghost t2 = self.temp_counter;
                        let ghost c2 = code_of(
                            slice_part(*hi, locals, t2, base + co.len() + c1.len()),
                        );
                        match self.compile_slice_part(hi, bc) {
                            Err(m) => { return Err(m); },
                            Ok(_) => {},
                        }
                        let ghost t3 = self.temp_counter;
                        let ghost c3 = code_of(
                            slice_part(*st, locals, t3, base + co.len() + c1.len() + c2.len()),
                        );
                        match self.compile_slice_part(st, bc) {
                            Err(m) => { return Err(m); },
                            Ok(_) => {},
                        }
                        emit(bc, Instruction::BuildSlice);
                        emit(bc, Instruction::GetItemSlice);
                        assert(code_view(bc@) =~= b0 + (co + c1 + c2 + c3 + seq![
                            Instr::BuildSlice,
                            Instr::GetItemSlice,
                        ]));
                        Ok(())
                    },
                    _ => {
                        let ghost ci = code_of(expr_code(**idx, locals, t1, base + co.len()));
                        match self.compile_expr(idx, bc) {
                            Err(m) => { return Err(m); },
                            Ok(_) => {},
                        }
                        emit(bc, Instruction::GetItem);
                        assert(code_view(bc@) =~= b0 + (co + ci.push(Instr::GetItem)));
                        Ok(())
                    },
                }
            },
            _ => fail(""),
        }
    }

    /// Compiles a short-circuit operator or an f-string.
    fn compile_joined(&mut self, e: &SynExpr, bc: &mut ByteCode) -> (res: Result<(), String>)
        requires
            e is BoolOp || e is JoinedStr,
        ensures
            final(self).local_vars == old(self).local_vars,
            final(self).loop_stack == old(self).loop_stack,
            emitted(
                expr_code(*e, old(self).locals(), old(self).temp_counter, old(bc)@.len() as int),
                res,
                old(bc)@,
                final(bc)@,
                final(self).temp_counter,
            ),
        decreases e, 1int,
    {
        let ghost b0 = code_view(bc@);
        let ghost base = bc@.len() as int;
        let ghost locals = self.locals();
        let ghost t0 = self.temp_counter;
        match e {
            SynExpr::BoolOp(op, first, rest) => {
                let ghost c0 = code_of(expr_code(**first, locals, t0, base));
                match self.compile_expr(first, bc) {
                    Err(m) => { return Err(m); },
                    Ok(_) => {},
                }
                let ghost t1 = self.temp_counter;
                let ghost cr = code_of(bool_chain(*op, rest@, locals, t1, base + c0.len()));
                match self.compile_bool_chain(op, rest, bc) {
                    Err(m) => { return Err(m); },
                    Ok(_) => {},
                }
                assert(code_view(bc@) =~= b0 + (c0 + cr));
                Ok(())
            },
            SynExpr::JoinedStr(parts) => {
                if parts.len() == 0 {
                    let i = Instruction::PushString(String::new());
                    emit(bc, i);
                    assert(code_view(bc@) =~= b0 + seq![i@]);
                    return Ok(());
                }
                let ghost c0 = code_of(fstring_first(parts@[0], locals, t0, base));
                match self.compile_fstring_first(&parts[0], bc) {
                    Err(m) => { return Err(m); },
                    Ok(_) => {},
                }
                let ghost t1 = self.temp_counter;
                let ghost cr = code_of(
                    fstring_rest(parts@.drop_first(), locals, t1, base + c0.len()),
                );
                match self.compile_fstring_rest(parts, bc) {
                    Err(m) => { return Err(m); },
                    Ok(_) => {},
                }
                assert(code_view(bc@) =~= b0 + (c0 + cr));
                Ok(())
            },
            _ => fail(""),
        }
    }

    /// Compiles expressions from left to right.
    fn compile_exprs(&mut self, es: &Vec<SynExpr>, bc: &mut ByteCode) -> (res: Result<(), String>)
        ensures
            final(self).local_vars == old(self).local_vars,
            final(self).loop_stack == old(self).loop_stack,
            emitted(
                exprs_code(es@, old(self).locals(), old(self).temp_counter, old(bc)@.len() as int),
                res,
                old(bc)@,
                final(bc)@,
                final(self).temp_counter,
            ),
        decreases es, 0int,
    {
        let ghost b0 = code_view(bc@);
        let ghost base = bc@.len() as int;
        let ghost locals = self.locals();
        let ghost t0 = self.temp_counter;
        let n = es.len();
        let mut i: usize = 0;
        assert(es@.subrange(0, n as int) =~= es@);
        assert(code_view(bc@).subrange(base, bc@.len() as int) =~= Seq::<Instr>::empty());
        assert(b0 + Seq::<Instr>::empty() =~= b0);
        while i < n
            invariant
                n == es@.len(),
                i <= n,
                self.local_vars == old(self).local_vars,
                self.loop_stack == old(self).loop_stack,
                locals == self.locals(),
                t0 == old(self).temp_counter,
                base == old(bc)@.len(),
                b0 == code_view(old(bc)@),
                base <= bc@.len(),
                code_view(bc@).subrange(0, base) == b0,
                b0.len() == base,
                exprs_code(es@, locals, t0, base) == after_code(
                    code_view(bc@).subrange(base, bc@.len() as int),
                    exprs_code(
                        es@.subrange(i as int, n as int),
                        locals,
                        self.temp_counter,
                        bc@.len() as int,
                    ),
                ),
            decreases n - i,
        {
            let ghost tail = es@.subrange(i as int, n as int);
            assert(tail[0] == es@[i as int]);
            assert(tail.drop_first() =~= es@.subrange(i + 1, n as int));
            let ghost so_far = code_view(bc@).subrange(base, bc@.len() as int);
            let ghost before = code_view(bc@);
            let ghost ti = self.temp_counter;
            let ghost li = bc@.len() as int;
            let ghost c = code_of(expr_code(es@[i as int], locals, ti, li));
            match self.compile_expr(&es[i], bc) {
                Err(m) => {
                    assert(exprs_code(tail, locals, ti, li) is Err);
                    return Err(m);
                },
                Ok(_) => {},
            }
            proof {
                lemma_after_code_assoc(
                    so_far,
                    c,
                    exprs_code(es@.subrange(i + 1, n as int), locals, self.temp_counter, bc@.len() as int),
                );
                assert(code_view(bc@).subrange(base, bc@.len() as int) =~= so_far + c);
                assert(code_view(bc@).subrange(0, base) =~= before.subrange(0, base));
            }
            i = i + 1;
        }
        proof {
            let so_far = code_view(bc@).subrange(base, bc@.len() as int);
            assert(es@.subrange(n as int, n as int) =~= Seq::<SynExpr>::empty());
            assert(so_far + Seq::<Instr>::empty() =~= so_far);
            assert(code_view(bc@) =~= b0 + so_far);
        }
        Ok(())
    }

    /// Compiles one bound of a slice, or pushes `None` where it is absent.
    fn compile_slice_part(&mut self, part: &Option<Box<SynExpr>>, bc: &mut ByteCode) -> (res: Result<(), String>)
        ensures
            final(self).local_vars == old(self).local_vars,
            final(self).loop_stack == old(self).loop_stack,
            emitted(
                slice_part(*part, old(self).locals(), old(self).temp_counter, old(bc)@.len() as int),
                res,
                old(bc)@,
                final(bc)@,
                final(self).temp_counter,
            ),
        decreases part, 0int,
    {
        match part {
            Some(x) => self.compile_expr(x, bc),
            None => {
                let ghost b0 = code_view(bc@);
                emit(bc, Instruction::PushNone);
                assert(code_view(bc@) =~= b0 + seq![Instr::PushNone]);
                Ok(())
            },
        }
    }

    /// Compiles the entries of a dict display: each key, then its value.
    fn compile_dict(&mut self, items: &Vec<DictItem>, bc: &mut ByteCode) -> (res: Result<(), String>)
        ensures
            final(self).local_vars == old(self).local_vars,
            final(self).loop_stack == old(self).loop_stack,
            emitted(
                dict_code(items@, old(self).locals(), old(self).temp_counter, old(bc)@.len() as int),
                res,
                old(bc)@,
                final(bc)@,
                final(self).temp_counter,
            ),
        decreases items, 0int,
    {
        let ghost b0 = code_view(bc@);
        let ghost base = bc@.len() as int;
        let ghost locals = self.locals();
        let ghost t0 = self.temp_counter;
        let n = items.len();
        let mut i: usize = 0;
        assert(items@.subrange(0, n as int) =~= items@);
        assert(code_view(bc@).subrange(base, bc@.len() as int) =~= Seq::<Instr>::empty());
        assert(b0 + Seq::<Instr>::empty() =~= b0);
        while i < n
            invariant
                n == items@.len(),
                i <= n,
                self.local_vars == old(self).local_vars,
                self.loop_stack == old(self).loop_stack,
                locals == self.locals(),
                t0 == old(self).temp_counter,
                base == old(bc)@.len(),
                b0 == code_view(old(bc)@),
                base <= bc@.len(),
                code_view(bc@).subrange(0, base) == b0,
                b0.len() == base,
                dict_code(items@, locals, t0, base) == after_code(
                    code_view(bc@).subrange(base, bc@.len() as int),
                    dict_code(
                        items@.subrange(i as int, n as int),
                        locals,
                        self.temp_counter,
                        bc@.len() as int,
                    ),
                ),
            decreases n - i,
        {
            let ghost tail = items@.subrange(i as int, n as int);
            assert(tail[0] == items@[i as int]);
            assert(tail.drop_first() =~= items@.subrange(i + 1, n as int));
            let ghost so_far = code_view(bc@).subrange(base, bc@.len() as int);
            let ghost before = code_view(bc@);
            let ghost ti = self.temp_counter;
            let ghost li = bc@.len() as int;
            let item = &items[i];
            match &item.key {
                None => {
                    assert(dict_code(tail, locals, ti, li) is Err);
                    return fail("Dictionary unpacking not supported");
                },
                Some(k) => {
                    let ghost ck = code_of(expr_code(*k, locals, ti, li));
                    match self.compile_expr(k, bc) {
                        Err(m) => {
                            assert(dict_code(tail, locals, ti, li) is Err);
                            return Err(m);
                        },
                        Ok(_) => {},
                    }
                    let ghost t1 = self.temp_counter;
                    let ghost cv = code_of(expr_code(item.value, locals, t1, li + ck.len()));
                    match self.compile_expr(&item.value, bc) {
                        Err(m) => {
                            assert(dict_code(tail, locals, ti, li) is Err);
                            return Err(m);
                        },
                        Ok(_) => {},
                    }
                    proof {
                        lemma_after_code_assoc(
                            so_far,
                            ck + cv,
                            dict_code(
                                items@.subrange(i + 1, n as int),
                                locals,
                                self.temp_counter,
                                bc@.len() as int,
                            ),
                        );
                        assert(code_view(bc@).subrange(base, bc@.len() as int) =~= so_far + (ck
                            + cv));
                        assert(code_view(bc@).subrange(0, base) =~= before.subrange(0, base));
                    }
                },
            }
            i = i + 1;
        }
        proof {
            let so_far = code_view(bc@).subrange(base, bc@.len() as int);
            assert(items@.subrange(n as int, n as int) =~= Seq::<DictItem>::empty());
            assert(so_far + Seq::<Instr>::empty() =~= so_far);
            assert(code_view(bc@) =~= b0 + so_far);
        }
        Ok(())
    }

    /// Compiles the operands after the first of a short-circuit operator,
    /// each behind a jump to the end of its own code.
    fn compile_bool_chain(&mut self, op: &BoolOp, rest: &Vec<SynExpr>, bc: &mut ByteCode) -> (res: Result<(), String>)
        ensures
            final(self).local_vars == old(self).local_vars,
            final(self).loop_stack == old(self).loop_stack,
            emitted(
                bool_chain(*op, rest@, old(self).locals(), old(self).temp_counter, old(bc)@.len() as int),
                res,
                old(bc)@,
                final(bc)@,
                final(self).temp_counter,
            ),
        decreases rest, 0int,
    {
        let ghost b0 = code_view(bc@);
        let ghost base = bc@.len() as int;
        let ghost locals = self.locals();
        let ghost t0 = self.temp_counter;
        let n = rest.len();
        let mut i: usize = 0;
        assert(rest@.subrange(0, n as int) =~= rest@);
        assert(code_view(bc@).subrange(base, bc@.len() as int) =~= Seq::<Instr>::empty());
        assert(b0 + Seq::<Instr>::empty() =~= b0);
        while i < n
            invariant
                n == rest@.len(),
                i <= n,
                self.local_vars == old(self).local_vars,
                self.loop_stack == old(self).loop_stack,
                locals == self.locals(),
                t0 == old(self).temp_counter,
                base == old(bc)@.len(),
                b0 == code_view(old(bc)@),
                base <= bc@.len(),
                code_view(bc@).subrange(0, base) == b0,
                b0.len() == base,
                bool_chain(*op, rest@, locals, t0, base) == after_code(
                    code_view(bc@).subrange(base, bc@.len() as int),
                    bool_chain(
                        *op,
                        rest@.subrange(i as int, n as int),
                        locals,
                        self.temp_counter,
                        bc@.len() as int,
                    ),
                ),
            decreases n - i,
        {
            let ghost tail = rest@.subrange(i as int, n as int);
            assert(tail[0] == rest@[i as int]);
            assert(tail.drop_first() =~= rest@.subrange(i + 1, n as int));
            let ghost so_far = code_view(bc@).subrange(base, bc@.len() as int);
            let ghost start = code_view(bc@);
            let ghost ti = self.temp_counter;
            let pos = bc.len();
            emit(bc, bool_jump_of(op, 0));
            let ghost cv = code_of(expr_code(rest@[i as int], locals, ti, pos as int + 1));
            match self.compile_expr(&rest[i], bc) {
                Err(m) => {
                    assert(bool_chain(*op, tail, locals, ti, pos as int) is Err);
                    return Err(m);
                },
                Ok(_) => {},
            }
            let ghost after_v = code_view(bc@);
            assert(after_v =~= start.push(bool_jump(*op, 0)) + cv);
            let end = bc.len();
            let j = bool_jump_of(op, end);
            bc.set(pos, j);
            proof {
                assert(code_view(bc@) =~= after_v.update(pos as int, j@));
                assert(code_view(bc@) =~= start + (seq![j@] + cv));
                lemma_after_code_assoc(
                    so_far,
                    seq![j@] + cv,
                    bool_chain(
                        *op,
                        rest@.subrange(i + 1, n as int),
                        locals,
                        self.temp_counter,
                        end as int,
                    ),
                );
                assert(code_view(bc@).subrange(base, bc@.len() as int) =~= so_far + (seq![j@]
                    + cv));
                assert(code_view(bc@).subrange(0, base) =~= start.subrange(0, base));
            }
            i = i + 1;
        }
        proof {
            let so_far = code_view(bc@).subrange(base, bc@.len() as int);
            assert(rest@.subrange(n as int, n as int) =~= Seq::<SynExpr>::empty());
            assert(so_far + Seq::<Instr>::empty() =~= so_far);
            assert(code_view(bc@) =~= b0 + so_far);
        }
        Ok(())
    }

    /// Compiles the first part of a non-empty f-string.
    fn compile_fstring_first(&mut self, part: &SynExpr, bc: &mut ByteCode) -> (res: Result<(), String>)
        ensures
            final(self).local_vars == old(self).local_vars,
            final(self).loop_stack == old(self).loop_stack,
            emitted(
                fstring_first(*part, old(self).locals(), old(self).temp_counter, old(bc)@.len() as int),
                res,
                old(bc)@,
                final(bc)@,
                final(self).temp_counter,
            ),
        decreases part, 1int,
    {
        let ghost b0 = code_view(bc@);
        let ghost base = bc@.len() as int;
        let ghost locals = self.locals();
        let ghost t0 = self.temp_counter;
        match part {
            SynExpr::Constant(c) => {
                let i = match c {
                    Constant::Str(s) => Instruction::PushString(s.clone()),
                    _ => Instruction::PushString(String::new()),
                };
                emit(bc, i);
                assert(code_view(bc@) =~= b0 + seq![i@]);
                Ok(())
            },
            SynExpr::FormattedValue(v, _) => {
                let ghost cv = code_of(expr_code(**v, locals, t0, base));
                match self.compile_expr(v, bc) {
                    Err(m) => { return Err(m); },
                    Ok(_) => {},
                }
                emit(bc, Instruction::Str);
                assert(code_view(bc@) =~= b0 + cv.push(Instr::Str));
                Ok(())
            },
            _ => fail("Unsupported f-string component"),
        }
    }

    /// Compiles the parts of a non-empty f-string after the first.
    fn compile_fstring_rest(&mut self, parts: &Vec<SynExpr>, bc: &mut ByteCode) -> (res: Result<(), String>)
        requires
            parts@.len() > 0,
        ensures
            final(self).local_vars == old(self).local_vars,
            final(self).loop_stack == old(self).loop_stack,
            emitted(
                fstring_rest(
                    parts@.drop_first(),
                    old(self).locals(),
                    old(self).temp_counter,
                    old(bc)@.len() as int,
                ),
                res,
                old(bc)@,
                final(bc)@,
                final(self).temp_counter,
            ),
        decreases parts, 0int,
    {
        let ghost b0 = code_view(bc@);
        let ghost base = bc@.len() as int;
        let ghost locals = self.locals();
        let ghost t0 = self.temp_counter;
        let n = parts.len();
        let mut i: usize = 1;
        assert(parts@.subrange(1, n as int) =~= parts@.drop_first());
        assert(code_view(bc@).subrange(base, bc@.len() as int) =~= Seq::<Instr>::empty());
        assert(b0 + Seq::<Instr>::empty() =~= b0);
        while i < n
            invariant
                n == parts@.len(),
                1 <= i <= n,
                self.local_vars == old(self).local_vars,
                self.loop_stack == old(self).loop_stack,
                locals == self.locals(),
                t0 == old(self).temp_counter,
                base == old(bc)@.len(),
                b0 == code_view(old(bc)@),
                base <= bc@.len(),
                code_view(bc@).subrange(0, base) == b0,
                b0.len() == base,
                fstring_rest(parts@.drop_first(), locals, t0, base) == after_code(
                    code_view(bc@).subrange(base, bc@.len() as int),
                    fstring_rest(
                        parts@.subrange(i as int, n as int),
                        locals,
                        self.temp_counter,
                        bc@.len() as int,
                    ),
                ),
            decreases n - i,
        {
            let ghost tail = parts@.subrange(i as int, n as int);
            assert(tail[0] == parts@[i as int]);
            assert(tail.drop_first() =~= parts@.subrange(i + 1, n as int));
            let ghost so_far = code_view(bc@).subrange(base, bc@.len() as int);
            let ghost before = code_view(bc@);
            let ghost ti = self.temp_counter;
            let ghost li = bc@.len() as int;
            let ghost c: Seq<Instr>;
            match &parts[i] {
                SynExpr::Constant(k) => {
                    match k {
                        Constant::Str(s) => {
                            if !s.as_str().is_empty() {
                                emit(bc, Instruction::PushString(s.clone()));
                                emit(bc, Instruction::Add);
                                proof {
                                    c = seq![Instr::PushString(s@), Instr::Add];
                                }
                            } else {
                                proof {
                                    c = Seq::empty();
                                }
                            }
                        },
                        _ => {
                            proof {
                                c = Seq::empty();
                            }
                        },
                    }
                },
                SynExpr::FormattedValue(v, _) => {
                    let ghost cv = code_of(expr_code(**v, locals, ti, li));
                    match self.compile_expr(v, bc) {
                        Err(m) => {
                            assert(fstring_rest(tail, locals, ti, li) is Err);
                            return Err(m);
                        },
                        Ok(_) => {},
                    }
                    emit(bc, Instruction::Str);
                    emit(bc, Instruction::Add);
                    proof {
                        c = cv + seq![Instr::Str, Instr::Add];
                    }
                },
                _ => {
                    assert(fstring_rest(tail, locals, ti, li) is Err);
                    return fail("Unsupported f-string component");
                },
            }
            proof {
                lemma_after_code_assoc(
                    so_far,
                    c,
                    fstring_rest(
                        parts@.subrange(i + 1, n as int),
                        locals,
                        self.temp_counter,
                        bc@.len() as int,
                    ),
                );
                assert(code_view(bc@) =~= before + c);
                assert(code_view(bc@).subrange(base, bc@.len() as int) =~= so_far + c);
                assert(code_view(bc@).subrange(0, base) =~= before.subrange(0, base));
            }
            i = i + 1;
        }
        proof {
            let so_far = code_view(bc@).subrange(base, bc@.len() as int);
            assert(parts@.subrange(n as int, n as int) =~= Seq::<SynExpr>::empty());
            assert(so_far + Seq::<Instr>::empty() =~= so_far);
            assert(code_view(bc@) =~= b0 + so_far);
        }
        Ok(())
    }

    /// Compiles a call: the built-in functions that have instructions of
    /// their own, method calls, and calls of any other callee.
    fn compile_call(&mut self, e: &SynExpr, bc: &mut ByteCode) -> (res: Result<(), String>)
        requires
            e is Call,
        ensures
            final(self).local_vars == old(self).local_vars,
            final(self).loop_stack == old(self).loop_stack,
            emitted(
                expr_code(*e, old(self).locals(), old(self).temp_counter, old(bc)@.len() as int),
                res,
                old(bc)@,
                final(bc)@,
                final(self).temp_counter,
            ),
        decreases e, 1int,
    {
        let ghost b0 = code_view(bc@);
        let ghost base = bc@.len() as int;
        let ghost locals = self.locals();
        let ghost t0 = self.temp_counter;
        match e {
            SynExpr::Call(f, args) => {
                match &**f {
                    SynExpr::Name(n) => {
                        if str_eq(n.as_str(), "print") {
                            let ghost c = code_of(exprs_code(args@, locals, t0, base));
                            match self.compile_exprs(args, bc) {
                                Err(m) => { return Err(m); },
                                Ok(_) => {},
                            }
                            let i = Instruction::Print(args.len());
                            emit(bc, i);
                            assert(code_view(bc@) =~= b0 + c.push(i@));
                            return Ok(());
                        }
                        match unary_builtin_of(n.as_str()) {
                            Some((i, msg)) => {
                                if args.len() != 1 {
                                    return fail(msg);
                                }
                                let ghost c = code_of(expr_code(args@[0], locals, t0, base));
                                match self.compile_expr(&args[0], bc) {
                                    Err(m) => { return Err(m); },
                                    Ok(_) => {},
                                }
                                emit(bc, i);
                                assert(code_view(bc@) =~= b0 + c.push(i@));
                                Ok(())
                            },
                            None => {
                                if str_eq(n.as_str(), "isinstance") {
                                    if args.len() != 2 {
                                        let mut m = String::from_str(
                                            "isinstance() takes exactly 2 arguments (",
                                        );
                                        push_decimal(&mut m, args.len() as u64);
                                        m.append(" given)");
                                        return Err(m);
                                    }
                                    let ghost c = code_of(exprs_code(args@, locals, t0, base));
                                    match self.compile_exprs(args, bc) {
                                        Err(m) => { return Err(m); },
                                        Ok(_) => {},
                                    }
                                    emit(bc, Instruction::IsInstance);
                                    assert(code_view(bc@) =~= b0 + c.push(Instr::IsInstance));
                                    Ok(())
                                } else if str_eq(n.as_str(), "len") {
                                    if args.len() != 1 {
                                        return fail("len() takes exactly one argument");
                                    }
                                    let ghost c = code_of(expr_code(args@[0], locals, t0, base));
                                    match self.compile_expr(&args[0], bc) {
                                        Err(m) => { return Err(m); },
                                        Ok(_) => {},
                                    }
                                    emit(bc, Instruction::Len);
                                    assert(code_view(bc@) =~= b0 + c.push(Instr::Len));
                                    Ok(())
                                } else if str_eq(n.as_str(), "range") {
                                    if args.len() == 0 || args.len() > 3 {
                                        return fail("range() takes 1 to 3 arguments");
                                    }
                                    let k = Instruction::PushInt(args.len() as i32);
                                    emit(bc, k);
                                    let ghost c = code_of(exprs_code(args@, locals, t0, base + 1));
                                    match self.compile_exprs(args, bc) {
                                        Err(m) => { return Err(m); },
                                        Ok(_) => {},
                                    }
                                    emit(bc, Instruction::Range);
                                    assert(code_view(bc@) =~= b0 + (seq![k@] + c.push(
                                        Instr::Range,
                                    )));
                                    Ok(())
                                } else {
                                    let k = self.load_name_of(n);
                                    emit(bc, k);
                                    let ghost c = code_of(exprs_code(args@, locals, t0, base + 1));
                                    match self.compile_exprs(args, bc) {
                                        Err(m) => { return Err(m); },
                                        Ok(_) => {},
                                    }
                                    let i = Instruction::Call(args.len());
                                    emit(bc, i);
                                    assert(code_view(bc@) =~= b0 + (seq![k@] + c.push(i@)));
                                    Ok(())
                                }
                            },
                        }
                    },
                    SynExpr::Attribute(obj, attr) => {
                        let ghost co = code_of(expr_code(**obj, locals, t0, base));
                        match self.compile_expr(obj, bc) {
                            Err(m) => { return Err(m); },
                            Ok(_) => {},
                        }
                        let ghost t1 = self.temp_counter;
                        let ghost ca = code_of(exprs_code(args@, locals, t1, base + co.len()));
                        match self.compile_exprs(args, bc) {
                            Err(m) => { return Err(m); },
                            Ok(_) => {},
                        }
                        let i = Instruction::CallMethod(attr.clone(), args.len());
                        emit(bc, i);
                        assert(code_view(bc@) =~= b0 + (co + ca.push(i@)));
                        Ok(())
                    },
                    _ => {
                        let ghost cf = code_of(expr_code(**f, locals, t0, base));
                        match self.compile_expr(f, bc) {
                            Err(m) => { return Err(m); },
                            Ok(_) => {},
                        }
                        let ghost t1 = self.temp_counter;
                        let ghost ca = code_of(exprs_code(args@, locals, t1, base + cf.len()));
                        match self.compile_exprs(args, bc) {
                            Err(m) => { return Err(m); },
                            Ok(_) => {},
                        }
                        let i = Instruction::Call(args.len());
                        emit(bc, i);
                        assert(code_view(bc@) =~= b0 + (cf + ca.push(i@)));
                        Ok(())
                    },
                }
            },
            _ => fail(""),
        }
    }

    /// Compiles the filters of a comprehension, each followed by a
    /// placeholder jump whose place is recorded in `skips`.
    fn compile_filters(&mut self, ifs: &Vec<SynExpr>, bc: &mut ByteCode, skips: &mut Vec<usize>) -> (res: Result<(), String>)
        ensures
            final(self).local_vars == old(self).local_vars,
            final(self).loop_stack == old(self).loop_stack,
            match filters_code(ifs@, old(self).locals(), old(self).temp_counter, old(bc)@.len() as int) {
                Ok((t, n)) => {
                    &&& res is Ok
                    &&& code_view(final(bc)@) == code_view(old(bc)@) + placed(t)
                    &&& final(bc)@.len() == old(bc)@.len() + t.len()
                    &&& final(self).temp_counter == n
                    &&& as_ints(final(skips)@) == as_ints(old(skips)@) + holes(
                        t,
                        HoleKind::Skip,
                        old(bc)@.len() as int,
                    )
                },
                Err(m) => res matches Err(x) && x@ == m,
            },
        decreases ifs, 0int,
    {
        let ghost b0 = code_view(bc@);
        let ghost base = bc@.len() as int;
        let ghost locals = self.locals();
        let ghost t0 = self.temp_counter;
        let ghost s0 = as_ints(skips@);
        let ghost mut t: Seq<Slot> = Seq::empty();
        let n = ifs.len();
        let mut i: usize = 0;
        assert(ifs@.subrange(0, n as int) =~= ifs@);
        assert(code_view(bc@).subrange(base, bc@.len() as int) =~= placed(t));
        assert(holes(t, HoleKind::Skip, base) == Seq::<int>::empty());
        assert(s0 + Seq::<int>::empty() =~= s0);
        assert(t + Seq::<Slot>::empty() =~= t);
        while i < n
            invariant
                n == ifs@.len(),
                i <= n,
                self.local_vars == old(self).local_vars,
                self.loop_stack == old(self).loop_stack,
                locals == self.locals(),
                t0 == old(self).temp_counter,
                base == old(bc)@.len(),
                b0 == code_view(old(bc)@),
                s0 == as_ints(old(skips)@),
                base + t.len() == bc@.len(),
                code_view(bc@).subrange(0, base) == b0,
                b0.len() == base,
                code_view(bc@).subrange(base, bc@.len() as int) == placed(t),
                as_ints(skips@) == s0 + holes(t, HoleKind::Skip, base),
                filters_code(ifs@, locals, t0, base) == after_slots(
                    t,
                    filters_code(
                        ifs@.subrange(i as int, n as int),
                        locals,
                        self.temp_counter,
                        bc@.len() as int,
                    ),
                ),
            decreases n - i,
        {
            let ghost tail = ifs@.subrange(i as int, n as int);
            assert(tail[0] == ifs@[i as int]);
            assert(tail.drop_first() =~= ifs@.subrange(i + 1, n as int));
            let ghost before = code_view(bc@);
            let ghost ti = self.temp_counter;
            let ghost li = bc@.len() as int;
            let ghost c = code_of(expr_code(ifs@[i as int], locals, ti, li));
            match self.compile_expr(&ifs[i], bc) {
                Err(m) => {
                    assert(filters_code(tail, locals, ti, li) is Err);
                    return Err(m);
                },
                Ok(_) => {},
            }
            let ghost sk0 = skips@;
            skips.push(bc.len());
            emit(bc, Instruction::JumpIfFalse(0));
            proof {
                let piece = lift(c).push(Slot::Hole(HoleKind::Skip));
                lemma_after_slots_assoc(
                    t,
                    piece,
                    filters_code(
                        ifs@.subrange(i + 1, n as int),
                        locals,
                        self.temp_counter,
                        bc@.len() as int,
                    ),
                );
                assert(placed(piece) =~= c.push(Instr::JumpIfFalse(0)));
                assert(placed(t + piece) =~= placed(t) + placed(piece));
                lemma_holes_append(t, piece, HoleKind::Skip, base);
                assert(piece =~= lift(c) + seq![Slot::Hole(HoleKind::Skip)]);
                lemma_holes_append(
                    lift(c),
                    seq![Slot::Hole(HoleKind::Skip)],
                    HoleKind::Skip,
                    base + t.len(),
                );
                lemma_holes_lift(c, HoleKind::Skip, base + t.len());
                lemma_holes_single(
                    Slot::Hole(HoleKind::Skip),
                    HoleKind::Skip,
                    base + t.len() + c.len(),
                );
                assert(as_ints(skips@) =~= as_ints(sk0).push(base + t.len() + c.len()));
                assert(as_ints(skips@) =~= s0 + holes(t + piece, HoleKind::Skip, base));
                assert(code_view(bc@).subrange(base, bc@.len() as int) =~= placed(t + piece));
                assert(code_view(bc@).subrange(0, base) =~= before.subrange(0, base));
                t = t + piece;
            }
            i = i + 1;
        }
        proof {
            assert(ifs@.subrange(n as int, n as int) =~= Seq::<SynExpr>::empty());
            assert(t + Seq::<Slot>::empty() =~= t);
            assert(code_view(bc@) =~= b0 + placed(t));
        }
        Ok(())
    }

    /// Compiles a list comprehension with one generator.
    #[verifier::rlimit(80)]
    #[verifier::spinoff_prover]
    fn compile_listcomp(&mut self, e: &SynExpr, bc: &mut ByteCode) -> (res: Result<(), String>)
        requires
            e matches SynExpr::ListComp(_, gens) && gens@.len() == 1,
        ensures
            final(self).local_vars == old(self).local_vars,
            final(self).loop_stack == old(self).loop_stack,
            emitted(
                expr_code(*e, old(self).locals(), old(self).temp_counter, old(bc)@.len() as int),
                res,
                old(bc)@,
                final(bc)@,
                final(self).temp_counter,
            ),
        decreases e, 1int,
    {
        let ghost b0 = code_view(bc@);
        let ghost base = bc@.len() as int;
        let ghost locals = self.locals();
        let ghost t0 = self.temp_counter;
        match e {
            SynExpr::ListComp(elt, gens) => {
                let g = &gens[0];
                let mut name = String::from_str("_listcomp_");
                push_decimal(&mut name, self.temp_counter as u64);
                assert(name@ == listcomp_name(t0));
                self.temp_counter = if self.temp_counter == usize::MAX {
                    0
                } else {
                    self.temp_counter + 1
                };
                let i_set = Instruction::SetGlobal(name.clone());
                emit(bc, Instruction::BuildList(0));
                emit(bc, i_set);
                emit(bc, Instruction::Pop);
                let ghost ci = code_of(expr_code(g.iter, locals, next_tmp(t0), base + 3));
                match self.compile_expr(&g.iter, bc) {
                    Err(m) => { return Err(m); },
                    Ok(_) => {},
                }
                emit(bc, Instruction::GetIter);
                let loop_start = bc.len();
                emit(bc, Instruction::ForIter(0));
                let i_store = match &g.target {
                    SynExpr::Name(v) => self.store_of(v),
                    _ => {
                        return fail(
                            "Only simple variable names are supported in list comprehensions",
                        );
                    },
                };
                emit(bc, i_store);
                emit(bc, Instruction::Pop);
                let fbase = bc.len();
                let ghost pre = code_view(bc@);
                assert(pre =~= b0 + (seq![Instr::BuildList(0), i_set@, Instr::Pop] + ci + seq![
                    Instr::GetIter,
                    Instr::ForIter(0),
                    i_store@,
                    Instr::Pop,
                ]));
                let mut skips: Vec<usize> = Vec::new();
                let ghost cf = match filters_code(g.ifs@, locals, self.temp_counter, fbase as int) {
                    Ok((t, _)) => t,
                    Err(_) => Seq::empty(),
                };
                match self.compile_filters(&g.ifs, bc, &mut skips) {
                    Err(m) => { return Err(m); },
                    Ok(_) => {},
                }
                let i_get = Instruction::GetGlobal(name.clone());
                emit(bc, i_get);
                let ghost ce = code_of(
                    expr_code(**elt, locals, self.temp_counter, fbase + cf.len() + 1),
                );
                match self.compile_expr(elt, bc) {
                    Err(m) => { return Err(m); },
                    Ok(_) => {},
                }
                let i_append = Instruction::CallMethod(String::from_str("append"), 1);
                emit(bc, i_append);
                emit(bc, Instruction::Pop);
                let after = bc.len();
                let ghost x = seq![i_get@] + ce + seq![i_append@, Instr::Pop];
                let ghost tt = cf + lift(x);
                proof {
                    assert(as_ints(Seq::<usize>::empty()) =~= Seq::<int>::empty());
                    assert(Seq::<int>::empty() + holes(cf, HoleKind::Skip, fbase as int) =~= holes(
                        cf,
                        HoleKind::Skip,
                        fbase as int,
                    ));
                    lemma_holes_append(cf, lift(x), HoleKind::Skip, fbase as int);
                    lemma_holes_lift(x, HoleKind::Skip, fbase + cf.len());
                    assert(holes(tt, HoleKind::Skip, fbase as int) =~= holes(
                        cf,
                        HoleKind::Skip,
                        fbase as int,
                    ));
                    lemma_holes_in_range(cf, HoleKind::Skip, fbase as int);
                    assert(placed(lift(x)) =~= x);
                    assert(placed(tt) =~= placed(cf) + x);
                    assert(code_view(bc@) =~= pre + placed(tt));
                    assert forall|j: int| 0 <= j < skips@.len() implies #[trigger] skips@[j]
                        < bc@.len() by {
                        assert(as_ints(skips@)[j] == skips@[j] as int);
                    }
                }
                write_jumps(bc, &skips, HoleKind::Skip, after);
                proof {
                    lemma_write_holes(pre, tt, HoleKind::Skip, after);
                    assert(fill(lift(x), HoleKind::Skip, after) =~= lift(x));
                    assert(fill(tt, HoleKind::Skip, after) =~= fill(cf, HoleKind::Skip, after) + lift(
                        x,
                    ));
                    assert(placed(fill(tt, HoleKind::Skip, after)) =~= placed(
                        fill(cf, HoleKind::Skip, after),
                    ) + x);
                }
                let ghost patched = code_view(bc@);
                assert(patched =~= pre + (placed(fill(cf, HoleKind::Skip, after)) + x));
                emit(bc, Instruction::Jump(loop_start));
                let loop_end = bc.len();
                let ghost before_set = code_view(bc@);
                bc.set(loop_start, Instruction::ForIter(loop_end));
                let i_last = Instruction::GetGlobal(name);
                emit(bc, i_last);
                proof {
                    assert(i_last@ == i_get@);
                    assert(code_view(bc@) =~= before_set.update(
                        loop_start as int,
                        Instr::ForIter(loop_end),
                    ).push(i_get@));
                    assert(code_view(bc@) =~= b0 + (seq![
                        Instr::BuildList(0),
                        i_set@,
                        Instr::Pop,
                    ] + ci + seq![
                        Instr::GetIter,
                        Instr::ForIter(loop_end),
                        i_store@,
                        Instr::Pop,
                    ] + placed(fill(cf, HoleKind::Skip, after)) + seq![i_get@] + ce + seq![
                        i_append@,
                        Instr::Pop,
                        Instr::Jump(loop_start),
                        i_get@,
                    ]));
                }
                Ok(())
            },
            _ => fail(""),
        }
    }
}


/// The start of the innermost loop being compiled, if any.
pub open spec fn innermost(stack: Seq<LoopContext>) -> Option<usize> {
    if stack.len() > 0 {
        Some(stack.last().start)
    } else {
        None
    }
}

/// The loops being compiled after a statement: the same loops, with the
/// innermost one's `break` places extended by `extra`.
pub open spec fn loops_after(before: Seq<LoopContext>, after: Seq<LoopContext>, extra: Seq<int>) -> bool {
    &&& after.len() == before.len()
    &&& forall|j: int| 0 <= j < before.len() - 1 ==> after[j] == before[j]
    &&& before.len() > 0 ==> {
        &&& after.last().start == before.last().start
        &&& as_ints(after.last().break_jumps@) == as_ints(before.last().break_jumps@) + extra
    }
}

/// How a statement-compiling function's result relates to what the spec
/// says it emits.
pub open spec fn stmt_emitted(
    spec: EmitT,
    res: Result<(), String>,
    before: Seq<Instruction>,
    after: Seq<Instruction>,
    tmp: usize,
    loops_before: Seq<LoopContext>,
    loops_after_: Seq<LoopContext>,
) -> bool {
    match spec {
        Ok((t, n)) => {
            &&& res is Ok
            &&& code_view(after) == code_view(before) + placed(t)
            &&& after.len() == before.len() + t.len()
            &&& tmp == n
            &&& no_hole(t, HoleKind::Exit)
            &&& loops_after(loops_before, loops_after_, holes(t, HoleKind::Break, before.len() as int))
        },
        Err(m) => res matches Err(x) && x@ == m,
    }
}

impl Compiler {
    /// Compiles one target of an assignment, with the value compiled for it.
    fn compile_target(&mut self, target: &SynExpr, value: &SynExpr, bc: &mut ByteCode) -> (res: Result<(), String>)
        ensures
            final(self).local_vars == old(self).local_vars,
            final(self).loop_stack == old(self).loop_stack,
            emitted(
                target_code(*target, *value, old(self).locals(), old(self).temp_counter, old(bc)@.len() as int),
                res,
                old(bc)@,
                final(bc)@,
                final(self).temp_counter,
            ),
    {
        let ghost b0 = code_view(bc@);
        let ghost base = bc@.len() as int;
        let ghost locals = self.locals();
        let ghost t0 = self.temp_counter;
        match target {
            SynExpr::Tuple(elts) => {
                let ghost cv = code_of(expr_code(*value, locals, t0, base));
                match self.compile_expr(value, bc) {
                    Err(m) => { return Err(m); },
                    Ok(_) => {},
                }
                let u = Instruction::UnpackSequence(elts.len());
                emit(bc, u);
                let ghost mid = code_view(bc@);
                match self.compile_unpack_stores(elts, bc) {
                    Err(m) => { return Err(m); },
                    Ok(_) => {},
                }
                let ghost cs = match unpack_stores(elts@, locals) {
                    Ok(c) => c,
                    Err(_) => Seq::empty(),
                };
                assert(code_view(bc@) =~= b0 + (cv + seq![u@] + cs));
                Ok(())
            },
            SynExpr::Name(n) => {
                let ghost cv = code_of(expr_code(*value, locals, t0, base));
                match self.compile_expr(value, bc) {
                    Err(m) => { return Err(m); },
                    Ok(_) => {},
                }
                let st = self.store_of(n);
                emit(bc, st);
                emit(bc, Instruction::Pop);
                assert(code_view(bc@) =~= b0 + (cv + seq![st@, Instr::Pop]));
                Ok(())
            },
            SynExpr::Subscript(obj, idx) => {
                let ghost cv = code_of(expr_code(*value, locals, t0, base));
                match self.compile_expr(value, bc) {
                    Err(m) => { return Err(m); },
                    Ok(_) => {},
                }
                let ghost t1 = self.temp_counter;
                let ghost co = code_of(expr_code(**obj, locals, t1, base + cv.len()));
                match self.compile_expr(obj, bc) {
                    Err(m) => { return Err(m); },
                    Ok(_) => {},
                }
                let ghost t2 = self.temp_counter;
                let ghost ci = code_of(expr_code(**idx, locals, t2, base + cv.len() + co.len()));
                match self.compile_expr(idx, bc) {
                    Err(m) => { return Err(m); },
                    Ok(_) => {},
                }
                emit(bc, Instruction::SetItem);
                emit(bc, Instruction::Pop);
                assert(code_view(bc@) =~= b0 + (cv + co + ci + seq![Instr::SetItem, Instr::Pop]));
                Ok(())
            },
            _ => fail("Unsupported assignment target"),
        }
    }

    /// Emits the stores of an unpacking assignment, last target first.
    fn compile_unpack_stores(&self, elts: &Vec<SynExpr>, bc: &mut ByteCode) -> (res: Result<(), String>)
        ensures
            match unpack_stores(elts@, self.locals()) {
                Ok(c) => res is Ok && code_view(final(bc)@) == code_view(old(bc)@) + c
                    && final(bc)@.len() == old(bc)@.len() + c.len(),
                Err(m) => res matches Err(x) && x@ == m,
            },
    {
        let ghost b0 = code_view(bc@);
        let ghost locals = self.locals();
        let mut i = elts.len();
        assert(elts@.subrange(0, i as int) =~= elts@);
        assert(b0 + Seq::<Instr>::empty() =~= b0);
        while i > 0
            invariant
                i <= elts@.len(),
                locals == self.locals(),
                b0 == code_view(old(bc)@),
                b0.len() <= bc@.len(),
                code_view(bc@).subrange(0, b0.len() as int) == b0,
                unpack_stores(elts@, locals) == match unpack_stores(elts@.subrange(0, i as int), locals) {
                    Ok(c) => Ok(code_view(bc@).subrange(b0.len() as int, bc@.len() as int) + c),
                    Err(m) => Err(m),
                },
            decreases i,
        {
            let ghost pre = elts@.subrange(0, i as int);
            assert(pre.last() == elts@[i - 1]);
            assert(pre.drop_last() =~= elts@.subrange(0, i - 1));
            let ghost before = code_view(bc@);
            match &elts[i - 1] {
                SynExpr::Name(v) => {
                    let st = self.store_of(v);
                    emit(bc, st);
                    emit(bc, Instruction::Pop);
                    proof {
                        let so_far = before.subrange(b0.len() as int, before.len() as int);
                        assert(code_view(bc@).subrange(b0.len() as int, bc@.len() as int) =~= so_far
                            + seq![st@, Instr::Pop]);
                        if let Ok(c) = unpack_stores(elts@.subrange(0, i - 1), locals) {
                            assert(so_far + (seq![st@, Instr::Pop] + c) =~= (so_far + seq![
                                st@,
                                Instr::Pop,
                            ]) + c);
                        }
                        assert(code_view(bc@).subrange(0, b0.len() as int) =~= before.subrange(
                            0,
                            b0.len() as int,
                        ));
                    }
                },
                _ => {
                    return fail("Unsupported unpacking target");
                },
            }
            i = i - 1;
        }
        proof {
            assert(elts@.subrange(0, 0) =~= Seq::<SynExpr>::empty());
            let so_far = code_view(bc@).subrange(b0.len() as int, bc@.len() as int);
            assert(so_far + Seq::<Instr>::empty() =~= so_far);
            assert(code_view(bc@) =~= b0 + so_far);
        }
        Ok(())
    }

    /// Compiles the targets of an assignment in order.
    fn compile_assign(&mut self, targets: &Vec<SynExpr>, value: &SynExpr, bc: &mut ByteCode) -> (res: Result<(), String>)
        ensures
            final(self).local_vars == old(self).local_vars,
            final(self).loop_stack == old(self).loop_stack,
            emitted(
                assign_code(targets@, *value, old(self).locals(), old(self).temp_counter, old(bc)@.len() as int),
                res,
                old(bc)@,
                final(bc)@,
                final(self).temp_counter,
            ),
    {
        let ghost b0 = code_view(bc@);
        let ghost base = bc@.len() as int;
        let ghost locals = self.locals();
        let ghost t0 = self.temp_counter;
        let n = targets.len();
        let mut i: usize = 0;
        assert(targets@.subrange(0, n as int) =~= targets@);
        assert(code_view(bc@).subrange(base, bc@.len() as int) =~= Seq::<Instr>::empty());
        assert(b0 + Seq::<Instr>::empty() =~= b0);
        while i < n
            invariant
                n == targets@.len(),
                i <= n,
                self.local_vars == old(self).local_vars,
                self.loop_stack == old(self).loop_stack,
                locals == self.locals(),
                t0 == old(self).temp_counter,
                base == old(bc)@.len(),
                b0 == code_view(old(bc)@),
                base <= bc@.len(),
                code_view(bc@).subrange(0, base) == b0,
                b0.len() == base,
                assign_code(targets@, *value, locals, t0, base) == after_code(
                    code_view(bc@).subrange(base, bc@.len() as int),
                    assign_code(
                        targets@.subrange(i as int, n as int),
                        *value,
                        locals,
                        self.temp_counter,
                        bc@.len() as int,
                    ),
                ),
            decreases n - i,
        {
            let ghost tail = targets@.subrange(i as int, n as int);
            assert(tail[0] == targets@[i as int]);
            assert(tail.drop_first() =~= targets@.subrange(i + 1, n as int));
            let ghost so_far = code_view(bc@).subrange(base, bc@.len() as int);
            let ghost before = code_view(bc@);
            let ghost ti = self.temp_counter;
            let ghost li = bc@.len() as int;
            let ghost c = code_of(target_code(targets@[i as int], *value, locals, ti, li));
            match self.compile_target(&targets[i], value, bc) {
                Err(m) => {
                    assert(assign_code(tail, *value, locals, ti, li) is Err);
                    return Err(m);
                },
                Ok(_) => {},
            }
            proof {
                lemma_after_code_assoc(
                    so_far,
                    c,
                    assign_code(
                        targets@.subrange(i + 1, n as int),
                        *value,
                        locals,
                        self.temp_counter,
                        bc@.len() as int,
                    ),
                );
                assert(code_view(bc@).subrange(base, bc@.len() as int) =~= so_far + c);
                assert(code_view(bc@).subrange(0, base) =~= before.subrange(0, base));
            }
            i = i + 1;
        }
        proof {
            let so_far = code_view(bc@).subrange(base, bc@.len() as int);
            assert(targets@.subrange(n as int, n as int) =~= Seq::<SynExpr>::empty());
            assert(so_far + Seq::<Instr>::empty() =~= so_far);
            assert(code_view(bc@) =~= b0 + so_far);
        }
        Ok(())
    }

    /// Emits the imports of `import a as b, ...`.
    fn compile_imports(names: &Vec<Alias>, bc: &mut ByteCode)
        ensures
            code_view(final(bc)@) == code_view(old(bc)@) + import_code(names@),
            final(bc)@.len() == old(bc)@.len() + import_code(names@).len(),
    {
        let ghost b0 = code_view(bc@);
        let n = names.len();
        let mut i: usize = 0;
        assert(names@.subrange(0, n as int) =~= names@);
        while i < n
            invariant
                n == names@.len(),
                i <= n,
                b0 == code_view(old(bc)@),
                b0.len() <= bc@.len(),
                code_view(bc@).subrange(0, b0.len() as int) == b0,
                import_code(names@) == code_view(bc@).subrange(b0.len() as int, bc@.len() as int)
                    + import_code(names@.subrange(i as int, n as int)),
            decreases n - i,
        {
            let ghost tail = names@.subrange(i as int, n as int);
            assert(tail[0] == names@[i as int]);
            assert(tail.drop_first() =~= names@.subrange(i + 1, n as int));
            let ghost before = code_view(bc@);
            let a = &names[i];
            let bound = match &a.asname {
                Some(x) => x.clone(),
                None => a.name.clone(),
            };
            let i1 = Instruction::Import(a.name.clone());
            let i2 = Instruction::SetGlobal(bound);
            emit(bc, i1);
            emit(bc, i2);
            emit(bc, Instruction::Pop);
            proof {
                let so_far = before.subrange(b0.len() as int, before.len() as int);
                assert(code_view(bc@).subrange(b0.len() as int, bc@.len() as int) =~= so_far + seq![
                    i1@,
                    i2@,
                    Instr::Pop,
                ]);
                assert(code_view(bc@).subrange(0, b0.len() as int) =~= before.subrange(
                    0,
                    b0.len() as int,
                ));
                assert(so_far + (seq![i1@, i2@, Instr::Pop] + import_code(
                    names@.subrange(i + 1, n as int),
                )) =~= so_far + seq![i1@, i2@, Instr::Pop] + import_code(
                    names@.subrange(i + 1, n as int),
                ));
            }
            i = i + 1;
        }
        proof {
            assert(names@.subrange(n as int, n as int) =~= Seq::<Alias>::empty());
            let so_far = code_view(bc@).subrange(b0.len() as int, bc@.len() as int);
            assert(so_far + Seq::<Instr>::empty() =~= so_far);
            assert(code_view(bc@) =~= b0 + so_far);
        }
    }

    /// Emits the bindings of `from m import a as b, ...`.
    fn compile_import_from(names: &Vec<Alias>, bc: &mut ByteCode)
        ensures
            code_view(final(bc)@) == code_view(old(bc)@) + import_from_code(names@),
            final(bc)@.len() == old(bc)@.len() + import_from_code(names@).len(),
    {
        let ghost b0 = code_view(bc@);
        let n = names.len();
        let mut i: usize = 0;
        assert(names@.subrange(0, n as int) =~= names@);
        while i < n
            invariant
                n == names@.len(),
                i <= n,
                b0 == code_view(old(bc)@),
                b0.len() <= bc@.len(),
                code_view(bc@).subrange(0, b0.len() as int) == b0,
                import_from_code(names@) == code_view(bc@).subrange(
                    b0.len() as int,
                    bc@.len() as int,
                ) + import_from_code(names@.subrange(i as int, n as int)),
            decreases n - i,
        {
            let ghost tail = names@.subrange(i as int, n as int);
            assert(tail[0] == names@[i as int]);
            assert(tail.drop_first() =~= names@.subrange(i + 1, n as int));
            let ghost before = code_view(bc@);
            let a = &names[i];
            let bound = match &a.asname {
                Some(x) => x.clone(),
                None => a.name.clone(),
            };
            let i2 = Instruction::GetAttr(a.name.clone());
            let i3 = Instruction::SetGlobal(bound);
            emit(bc, Instruction::Dup);
            emit(bc, i2);
            emit(bc, i3);
            emit(bc, Instruction::Pop);
            proof {
                let so_far = before.subrange(b0.len() as int, before.len() as int);
                let piece = seq![Instr::Dup, i2@, i3@, Instr::Pop];
                assert(code_view(bc@).subrange(b0.len() as int, bc@.len() as int) =~= so_far
                    + piece);
                assert(code_view(bc@).subrange(0, b0.len() as int) =~= before.subrange(
                    0,
                    b0.len() as int,
                ));
                assert(so_far + (piece + import_from_code(names@.subrange(i + 1, n as int)))
                    =~= so_far + piece + import_from_code(names@.subrange(i + 1, n as int)));
            }
            i = i + 1;
        }
        proof {
            assert(names@.subrange(n as int, n as int) =~= Seq::<Alias>::empty());
            let so_far = code_view(bc@).subrange(b0.len() as int, bc@.len() as int);
            assert(so_far + Seq::<Instr>::empty() =~= so_far);
            assert(code_view(bc@) =~= b0 + so_far);
        }
    }
}


/// A loop stack is unchanged from itself with no positions recorded.
pub proof fn lemma_loops_same(stack: Seq<LoopContext>)
    ensures
        loops_after(stack, stack, Seq::<int>::empty()),
{
    if stack.len() > 0 {
        assert(as_ints(stack.last().break_jumps@) + Seq::<int>::empty() =~= as_ints(
            stack.last().break_jumps@,
        ));
    }
}

impl Compiler {
    /// Compiles a statement that contains no other statement.
    #[verifier::rlimit(30)]
    fn compile_simple_stmt(&mut self, s: &SynStmt, bc: &mut ByteCode) -> (res: Result<(), String>)
        requires
            !(s is FunctionDef || s is AsyncFunctionDef || s is If || s is While || s is For
                || s is Try),
        ensures
            final(self).local_vars == old(self).local_vars,
            stmt_emitted(
                stmt_code(
                    *s,
                    old(self).locals(),
                    innermost(old(self).loop_stack@),
                    old(self).temp_counter,
                    old(bc)@.len() as int,
                ),
                res,
                old(bc)@,
                final(bc)@,
                final(self).temp_counter,
                old(self).loop_stack@,
                final(self).loop_stack@,
            ),
            (s is Break || s is Continue) && old(self).loop_stack@.len() == 0 ==> final(bc)@ == old(
                bc,
            )@ && final(self).loop_stack@ == old(self).loop_stack@,
    {
        let ghost b0 = code_view(bc@);
        let ghost base = bc@.len() as int;
        let ghost locals = self.locals();
        let ghost t0 = self.temp_counter;
        proof {
            lemma_loops_same(self.loop_stack@);
        }
        match s {
            SynStmt::Assign(targets, value) => {
                let ghost c = code_of(assign_code(targets@, *value, locals, t0, base));
                match self.compile_assign(targets, value, bc) {
                    Err(m) => { return Err(m); },
                    Ok(_) => {},
                }
                proof {
                    lemma_lift(c, base);
                }
                Ok(())
            },
            SynStmt::Return(v) => {
                let ghost c: Seq<Instr>;
                match v {
                    Some(x) => {
                        let ghost cx = code_of(expr_code(*x, locals, t0, base));
                        match self.compile_expr(x, bc) {
                            Err(m) => { return Err(m); },
                            Ok(_) => {},
                        }
                        emit(bc, Instruction::Return);
                        proof {
                            c = cx.push(Instr::Return);
                        }
                    },
                    None => {
                        emit(bc, Instruction::PushNone);
                        emit(bc, Instruction::Return);
                        proof {
                            c = seq![Instr::PushNone, Instr::Return];
                        }
                    },
                }
                proof {
                    lemma_lift(c, base);
                    assert(code_view(bc@) =~= b0 + c);
                }
                Ok(())
            },
            SynStmt::Expr(x) => {
                let ghost cx = code_of(expr_code(*x, locals, t0, base));
                match self.compile_expr(x, bc) {
                    Err(m) => { return Err(m); },
                    Ok(_) => {},
                }
                emit(bc, Instruction::Pop);
                proof {
                    lemma_lift(cx.push(Instr::Pop), base);
                    assert(code_view(bc@) =~= b0 + cx.push(Instr::Pop));
                }
                Ok(())
            },
            SynStmt::Raise(exc) => {
                match exc {
                    None => fail("bare raise not supported yet"),
                    Some(x) => {
                        if let SynExpr::Call(f, args) = x {
                            if let SynExpr::Name(n) = &**f {
                                let et = match exception_of_name(n.as_str()) {
                                    Some(t) => t,
                                    None => {
                                        return fail2("Unknown exception type: ", n.as_str());
                                    },
                                };
                                if args.len() != 1 {
                                    return fail("Exception requires exactly one argument");
                                }
                                let ghost cx = code_of(expr_code(args@[0], locals, t0, base));
                                match self.compile_expr(&args[0], bc) {
                                    Err(m) => { return Err(m); },
                                    Ok(_) => {},
                                }
                                emit(bc, Instruction::MakeException(et));
                                emit(bc, Instruction::Raise);
                                proof {
                                    let c = cx + seq![Instr::MakeException(et), Instr::Raise];
                                    lemma_lift(c, base);
                                    assert(code_view(bc@) =~= b0 + c);
                                }
                                return Ok(());
                            }
                        }
                        let ghost cx = code_of(expr_code(*x, locals, t0, base));
                        match self.compile_expr(x, bc) {
                            Err(m) => { return Err(m); },
                            Ok(_) => {},
                        }
                        emit(bc, Instruction::Raise);
                        proof {
                            lemma_lift(cx.push(Instr::Raise), base);
                            assert(code_view(bc@) =~= b0 + cx.push(Instr::Raise));
                        }
                        Ok(())
                    },
                }
            },
            SynStmt::Pass => {
                proof {
                    lemma_lift(Seq::empty(), base);
                    assert(lift(Seq::<Instr>::empty()) =~= Seq::<Slot>::empty());
                    assert(b0 + Seq::<Instr>::empty() =~= b0);
                }
                Ok(())
            },
            SynStmt::Break => {
                if self.loop_stack.len() == 0 {
                    return fail("'break' outside loop");
                }
                let pos = bc.len();
                let mut ctx = self.loop_stack.pop().unwrap();
                ctx.break_jumps.push(pos);
                self.loop_stack.push(ctx);
                emit(bc, Instruction::Jump(0));
                proof {
                    let t = seq![Slot::Hole(HoleKind::Break)];
                    lemma_holes_single(Slot::Hole(HoleKind::Break), HoleKind::Break, base);
                    assert(placed(t) =~= seq![Instr::Jump(0)]);
                    assert(code_view(bc@) =~= b0 + placed(t));
                    let ob = old(self).loop_stack@;
                    assert(as_ints(self.loop_stack@.last().break_jumps@) =~= as_ints(
                        ob.last().break_jumps@,
                    ) + seq![base]);
                    assert(forall|j: int|
                        0 <= j < ob.len() - 1 ==> self.loop_stack@[j] == ob[j]);
                }
                Ok(())
            },
            SynStmt::Continue => {
                if self.loop_stack.len() == 0 {
                    return fail("'continue' outside loop");
                }
                let start = self.loop_stack[self.loop_stack.len() - 1].start;
                emit(bc, Instruction::Jump(start));
                proof {
                    let t = seq![Slot::Op(Instr::Jump(start))];
                    lemma_lift(seq![Instr::Jump(start)], base);
                    assert(lift(seq![Instr::Jump(start)]) =~= t);
                    assert(code_view(bc@) =~= b0 + placed(t));
                }
                Ok(())
            },
            SynStmt::Import(names) => {
                Self::compile_imports(names, bc);
                proof {
                    lemma_lift(import_code(names@), base);
                }
                Ok(())
            },
            SynStmt::ImportFrom(module, names) => {
                match module {
                    None => fail("from import without module name"),
                    Some(m) => {
                        let i1 = Instruction::Import(m.clone());
                        emit(bc, i1);
                        let ghost mid = code_view(bc@);
                        Self::compile_import_from(names, bc);
                        emit(bc, Instruction::Pop);
                        proof {
                            let c = seq![i1@] + import_from_code(names@) + seq![Instr::Pop];
                            lemma_lift(c, base);
                            assert(code_view(bc@) =~= b0 + c);
                        }
                        Ok(())
                    },
                }
            },
            SynStmt::AugAssign(target, op, value) => {
                match target {
                    SynExpr::Name(n) => {
                        let ld = self.load_of(n);
                        emit(bc, ld);
                        let ghost cv = code_of(expr_code(*value, locals, t0, base + 1));
                        match self.compile_expr(value, bc) {
                            Err(m) => { return Err(m); },
                            Ok(_) => {},
                        }
                        let i = match binop_of(op) {
                            Some(i) => i,
                            None => {
                                return match op {
                                    Operator::Other(name) => fail2(
                                        "Unsupported augmented operator: ",
                                        name.as_str(),
                                    ),
                                    _ => fail(""),
                                };
                            },
                        };
                        emit(bc, i);
                        let st = self.store_of(n);
                        emit(bc, st);
                        emit(bc, Instruction::Pop);
                        proof {
                            let c = seq![ld@] + cv + seq![i@, st@, Instr::Pop];
                            lemma_lift(c, base);
                            assert(code_view(bc@) =~= b0 + c);
                        }
                        Ok(())
                    },
                    _ => fail("Augmented assignment only supports simple variables"),
                }
            },
            SynStmt::Other(text) => fail2("Unsupported statement: ", text.as_str()),
            _ => fail(""),
        }
    }
}


/// Two steps of loop-stack change make one, with the recorded positions of
/// both in order.
pub proof fn lemma_loops_trans(
    a: Seq<LoopContext>,
    b: Seq<LoopContext>,
    c: Seq<LoopContext>,
    x: Seq<int>,
    y: Seq<int>,
)
    requires
        loops_after(a, b, x),
        loops_after(b, c, y),
    ensures
        loops_after(a, c, x + y),
{
    if a.len() > 0 {
        assert(as_ints(a.last().break_jumps@) + x + y =~= as_ints(a.last().break_jumps@) + (x
            + y));
    }
}

/// Copies a list of strings.
fn clone_strings(v: &Vec<String>) -> (res: Vec<String>)
    ensures
        res@ == v@,
{
    let mut out: Vec<String> = Vec::new();
    let n = v.len();
    let mut i: usize = 0;
    while i < n
        invariant
            n == v@.len(),
            i <= n,
            out@ == v@.subrange(0, i as int),
        decreases n - i,
    {
        out.push(v[i].clone());
        assert(out@ =~= v@.subrange(0, i + 1));
        i = i + 1;
    }
    out
}

/// Whether an instruction is `Return`.
fn is_return(i: &Instruction) -> (res: bool)
    ensures
        res == (i@ == Instr::Return),
{
    match i {
        Instruction::Return => true,
        _ => false,
    }
}

impl Compiler {
    /// Compiles a statement: appends exactly the template `stmt_code` of it,
    /// recording its `break` holes in the innermost loop, or fails with its
    /// error.
    fn compile_stmt(&mut self, s: &SynStmt, bc: &mut ByteCode) -> (res: Result<(), String>)
        ensures
            final(self).local_vars == old(self).local_vars,
            stmt_emitted(
                stmt_code(
                    *s,
                    old(self).locals(),
                    innermost(old(self).loop_stack@),
                    old(self).temp_counter,
                    old(bc)@.len() as int,
                ),
                res,
                old(bc)@,
                final(bc)@,
                final(self).temp_counter,
                old(self).loop_stack@,
                final(self).loop_stack@,
            ),
            (s is Break || s is Continue) && old(self).loop_stack@.len() == 0 ==> final(bc)@ == old(
                bc,
            )@ && final(self).loop_stack@ == old(self).loop_stack@,
        decreases s, 3int,
    {
        match s {
            SynStmt::FunctionDef(name, params, body) => {
                let ghost b0 = code_view(bc@);
                let ghost base = bc@.len() as int;
                match self.compile_function_def(name, params, body, false, bc) {
                    Err(m) => { return Err(m); },
                    Ok(_) => {},
                }
                proof {
                    let c = match function_code(name@, params@, body@, false) {
                        Ok(c) => c,
                        Err(_) => Seq::empty(),
                    };
                    lemma_lift(c, base);
                    lemma_loops_same(self.loop_stack@);
                }
                Ok(())
            },
            SynStmt::AsyncFunctionDef(name, params, body) => {
                let ghost b0 = code_view(bc@);
                let ghost base = bc@.len() as int;
                match self.compile_function_def(name, params, body, true, bc) {
                    Err(m) => { return Err(m); },
                    Ok(_) => {},
                }
                proof {
                    let c = match function_code(name@, params@, body@, true) {
                        Ok(c) => c,
                        Err(_) => Seq::empty(),
                    };
                    lemma_lift(c, base);
                    lemma_loops_same(self.loop_stack@);
                }
                Ok(())
            },
            SynStmt::If(..) => self.compile_if(s, bc),
            SynStmt::While(..) => self.compile_loop(s, bc),
            SynStmt::For(..) => self.compile_loop(s, bc),
            SynStmt::Try(_, _, finalbody) => {
                if finalbody.len() > 0 {
                    self.compile_try_finally(s, bc)
                } else {
                    self.compile_try_except(s, bc)
                }
            },
            _ => self.compile_simple_stmt(s, bc),
        }
    }

    /// Compiles statements in order.
    fn compile_body(&mut self, ss: &Vec<SynStmt>, bc: &mut ByteCode) -> (res: Result<(), String>)
        ensures
            final(self).local_vars == old(self).local_vars,
            stmt_emitted(
                stmts_code(
                    ss@,
                    old(self).locals(),
                    innermost(old(self).loop_stack@),
                    old(self).temp_counter,
                    old(bc)@.len() as int,
                ),
                res,
                old(bc)@,
                final(bc)@,
                final(self).temp_counter,
                old(self).loop_stack@,
                final(self).loop_stack@,
            ),
        decreases ss, 1int,
    {
        assert(ss@.subrange(0, ss@.len() as int) =~= ss@);
        self.compile_stmts(ss, ss.len(), bc)
    }

    /// Compiles the first `upto` statements of `ss` in order.
    fn compile_stmts(&mut self, ss: &Vec<SynStmt>, upto: usize, bc: &mut ByteCode) -> (res: Result<(), String>)
        requires
            upto <= ss@.len(),
        ensures
            final(self).local_vars == old(self).local_vars,
            stmt_emitted(
                stmts_code(
                    ss@.subrange(0, upto as int),
                    old(self).locals(),
                    innermost(old(self).loop_stack@),
                    old(self).temp_counter,
                    old(bc)@.len() as int,
                ),
                res,
                old(bc)@,
                final(bc)@,
                final(self).temp_counter,
                old(self).loop_stack@,
                final(self).loop_stack@,
            ),
        decreases ss, 0int,
    {
        let ghost b0 = code_view(bc@);
        let ghost base = bc@.len() as int;
        let ghost locals = self.locals();
        let ghost t0 = self.temp_counter;
        let ghost lp = innermost(self.loop_stack@);
        let ghost mut t: Seq<Slot> = Seq::empty();
        let n = upto;
        let mut i: usize = 0;
        proof {
            lemma_loops_same(self.loop_stack@);
            assert(code_view(bc@).subrange(base, bc@.len() as int) =~= placed(t));
            assert(holes(t, HoleKind::Break, base) == Seq::<int>::empty());
            assert(t + Seq::<Slot>::empty() =~= t);
            assert(ss@.subrange(0, n as int).subrange(0, n as int) =~= ss@.subrange(0, n as int));
        }
        while i < n
            invariant
                n == upto,
                i <= n,
                self.local_vars == old(self).local_vars,
                locals == self.locals(),
                t0 == old(self).temp_counter,
                base == old(bc)@.len(),
                b0 == code_view(old(bc)@),
                lp == innermost(old(self).loop_stack@),
                lp == innermost(self.loop_stack@),
                base + t.len() == bc@.len(),
                code_view(bc@).subrange(0, base) == b0,
                b0.len() == base,
                code_view(bc@).subrange(base, bc@.len() as int) == placed(t),
                no_hole(t, HoleKind::Exit),
                loops_after(old(self).loop_stack@, self.loop_stack@, holes(t, HoleKind::Break, base)),
                n <= ss@.len(),
                stmts_code(ss@.subrange(0, n as int), locals, lp, t0, base) == after_slots(
                    t,
                    stmts_code(
                        ss@.subrange(0, n as int).subrange(i as int, n as int),
                        locals,
                        lp,
                        self.temp_counter,
                        bc@.len() as int,
                    ),
                ),
            decreases n - i,
        {
            let ghost tail = ss@.subrange(i as int, n as int);
            assert(ss@.subrange(0, n as int).subrange(i as int, n as int) =~= tail);
            assert(ss@.subrange(0, n as int).subrange(i + 1, n as int) =~= ss@.subrange(i + 1, n as int));
            assert(tail[0] == ss@[i as int]);
            assert(tail.drop_first() =~= ss@.subrange(i + 1, n as int));
            let ghost before = code_view(bc@);
            let ghost ti = self.temp_counter;
            let ghost li = bc@.len() as int;
            let ghost st0 = self.loop_stack@;
            let ghost piece = match stmt_code(ss@[i as int], locals, lp, ti, li) {
                Ok((p, _)) => p,
                Err(_) => Seq::empty(),
            };
            match self.compile_stmt(&ss[i], bc) {
                Err(m) => {
                    assert(stmts_code(tail, locals, lp, ti, li) is Err);
                    return Err(m);
                },
                Ok(_) => {},
            }
            proof {
                lemma_after_slots_assoc(
                    t,
                    piece,
                    stmts_code(
                        ss@.subrange(0, n as int).subrange(i + 1, n as int),
                        locals,
                        lp,
                        self.temp_counter,
                        bc@.len() as int,
                    ),
                );
                lemma_holes_append(t, piece, HoleKind::Break, base);
                lemma_loops_trans(
                    old(self).loop_stack@,
                    st0,
                    self.loop_stack@,
                    holes(t, HoleKind::Break, base),
                    holes(piece, HoleKind::Break, li),
                );
                lemma_no_hole_append(t, piece, HoleKind::Exit);
                lemma_fill_append(t, piece, HoleKind::Break, 0);
                assert(code_view(bc@).subrange(base, bc@.len() as int) =~= placed(t + piece));
                assert(code_view(bc@).subrange(0, base) =~= before.subrange(0, base));
                t = t + piece;
            }
            i = i + 1;
        }
        proof {
            assert(ss@.subrange(0, n as int).subrange(n as int, n as int) =~= Seq::<SynStmt>::empty());
            assert(t + Seq::<Slot>::empty() =~= t);
            assert(code_view(bc@) =~= b0 + placed(t));
        }
        Ok(())
    }

    /// Compiles a function definition: its body on its own, from position
    /// 0, then the instruction that makes the function.
    fn compile_function_def(
        &mut self,
        name: &String,
        params: &Vec<String>,
        body: &Vec<SynStmt>,
        is_async: bool,
        bc: &mut ByteCode,
    ) -> (res: Result<(), String>)
        ensures
            *final(self) == *old(self),
            match function_code(name@, params@, body@, is_async) {
                Ok(c) => res is Ok && code_view(final(bc)@) == code_view(old(bc)@) + c
                    && final(bc)@.len() == old(bc)@.len() + c.len(),
                Err(m) => res matches Err(x) && x@ == m,
            },
        decreases body, 2int,
    {
        let ghost b0 = code_view(bc@);
        let mut fc = Compiler {
            local_vars: clone_strings(params),
            loop_stack: Vec::new(),
            temp_counter: 0,
        };
        let mut fbc: ByteCode = Vec::new();
        assert(fc.locals() == views(params@));
        assert(innermost(fc.loop_stack@) == Option::<usize>::None);
        match fc.compile_body(body, &mut fbc) {
            Err(m) => { return Err(m); },
            Ok(_) => {},
        }
        let ghost t = match stmts_code(body@, views(params@), None, 0, 0) {
            Ok((t, _)) => t,
            Err(_) => Seq::empty(),
        };
        assert(code_view(fbc@) =~= placed(t));
        let n = fbc.len();
        let ends_in_return = n > 0 && is_return(&fbc[n - 1]);
        if !ends_in_return {
            emit(&mut fbc, Instruction::PushNone);
            emit(&mut fbc, Instruction::Return);
        }
        assert(code_view(fbc@) =~= function_body(placed(t)));
        let code_len = fbc.len();
        let mk = Instruction::MakeFunction {
            name: name.clone(),
            params: clone_strings(params),
            code_len,
            is_async,
        };
        emit(bc, mk);
        let ghost mid = bc@;
        let ghost fcode = fbc@;
        bc.append(&mut fbc);
        assert(code_view(bc@) =~= code_view(mid) + code_view(fcode));
        if !is_async {
            emit(bc, Instruction::PushNone);
        }
        proof {
            let code = function_body(placed(t));
            let tail = if is_async {
                Seq::<Instr>::empty()
            } else {
                seq![Instr::PushNone]
            };
            assert(code_view(bc@) =~= b0 + (seq![mk@] + code + tail));
        }
        Ok(())
    }
}


/// The template of a successful compilation.
pub open spec fn tmpl_of(r: EmitT) -> Seq<Slot> {
    match r {
        Ok((t, _)) => t,
        Err(_) => Seq::empty(),
    }
}

impl Compiler {
    /// Compiles an `if` statement.
    #[verifier::rlimit(40)]
    #[verifier::spinoff_prover]
    fn compile_if(&mut self, s: &SynStmt, bc: &mut ByteCode) -> (res: Result<(), String>)
        requires
            s is If,
        ensures
            final(self).local_vars == old(self).local_vars,
            stmt_emitted(
                stmt_code(
                    *s,
                    old(self).locals(),
                    innermost(old(self).loop_stack@),
                    old(self).temp_counter,
                    old(bc)@.len() as int,
                ),
                res,
                old(bc)@,
                final(bc)@,
                final(self).temp_counter,
                old(self).loop_stack@,
                final(self).loop_stack@,
            ),
        decreases s, 2int,
    {
        let ghost b0 = code_view(bc@);
        let ghost base = bc@.len() as int;
        let ghost locals = self.locals();
        let ghost t0 = self.temp_counter;
        let ghost lp = innermost(self.loop_stack@);
        let ghost st0 = self.loop_stack@;
        match s {
            SynStmt::If(test, body, orelse) => {
                let ghost ct = code_of(expr_code(*test, locals, t0, base));
                match self.compile_expr(test, bc) {
                    Err(m) => { return Err(m); },
                    Ok(_) => {},
                }
                let jpos = bc.len();
                emit(bc, Instruction::JumpIfFalse(0));
                let ghost t1 = self.temp_counter;
                let ghost bt = tmpl_of(stmts_code(body@, locals, lp, t1, base + ct.len() + 1));
                match self.compile_body(body, bc) {
                    Err(m) => { return Err(m); },
                    Ok(_) => {},
                }
                let ghost st2 = self.loop_stack@;
                let has_else = orelse.len() > 0;
                let mut jend: usize = 0;
                if has_else {
                    jend = bc.len();
                    emit(bc, Instruction::Jump(0));
                }
                let else_start = bc.len();
                let ghost before_set = code_view(bc@);
                bc.set(jpos, Instruction::JumpIfFalse(else_start));
                let ghost after_set = code_view(bc@);
                assert(after_set =~= before_set.update(jpos as int, Instr::JumpIfFalse(else_start)));
                let ghost t2 = self.temp_counter;
                let ghost ot = tmpl_of(stmts_code(orelse@, locals, lp, t2, else_start as int));
                assert(innermost(self.loop_stack@) == lp);
                match self.compile_body(orelse, bc) {
                    Err(m) => { return Err(m); },
                    Ok(_) => {},
                }
                let ghost before_end = code_view(bc@);
                let ghost end = bc@.len() as int;
                if has_else {
                    let e = bc.len();
                    bc.set(jend, Instruction::Jump(e));
                }
                proof {
                    let a = ct + seq![Instr::JumpIfFalse(else_start)];
                    let jopt = if has_else {
                        seq![Instr::Jump(end as usize)]
                    } else {
                        Seq::<Instr>::empty()
                    };
                    let tt = lift(a) + bt + lift(jopt) + ot + lift(Seq::<Instr>::empty());
                    lemma_shape(a, bt, jopt, ot, Seq::empty(), HoleKind::Break, base);
                    lemma_shape(a, bt, jopt, ot, Seq::empty(), HoleKind::Exit, base);
                    assert(tt =~= lift(ct) + seq![Slot::Op(Instr::JumpIfFalse(else_start))] + bt
                        + (if has_else {
                        seq![Slot::Op(Instr::Jump(end as usize))]
                    } else {
                        Seq::<Slot>::empty()
                    }) + ot);
                    lemma_loops_trans(
                        st0,
                        st2,
                        self.loop_stack@,
                        holes(bt, HoleKind::Break, base + ct.len() + 1),
                        holes(ot, HoleKind::Break, else_start as int),
                    );
                    if has_else {
                        assert(code_view(bc@) =~= before_end.update(jend as int, Instr::Jump(end as usize)));
                    }
                    assert(code_view(bc@) =~= b0 + (a + placed(bt) + jopt + placed(ot)
                        + Seq::<Instr>::empty()));
                }
                Ok(())
            },
            _ => fail(""),
        }
    }

    /// Compiles a `while` or `for` loop.
    #[verifier::rlimit(60)]
    #[verifier::spinoff_prover]
    fn compile_loop(&mut self, s: &SynStmt, bc: &mut ByteCode) -> (res: Result<(), String>)
        requires
            s is While || s is For,
        ensures
            final(self).local_vars == old(self).local_vars,
            stmt_emitted(
                stmt_code(
                    *s,
                    old(self).locals(),
                    innermost(old(self).loop_stack@),
                    old(self).temp_counter,
                    old(bc)@.len() as int,
                ),
                res,
                old(bc)@,
                final(bc)@,
                final(self).temp_counter,
                old(self).loop_stack@,
                final(self).loop_stack@,
            ),
        decreases s, 2int,
    {
        let ghost b0 = code_view(bc@);
        let ghost base = bc@.len() as int;
        let ghost locals = self.locals();
        let ghost t0 = self.temp_counter;
        let ghost st0 = self.loop_stack@;
        match s {
            SynStmt::While(test, body) => {
                let loop_start = bc.len();
                self.loop_stack.push(LoopContext { start: loop_start, break_jumps: Vec::new() });
                let ghost st1 = self.loop_stack@;
                let ghost ct = code_of(expr_code(*test, locals, t0, base));
                match self.compile_expr(test, bc) {
                    Err(m) => { return Err(m); },
                    Ok(_) => {},
                }
                let jpos = bc.len();
                emit(bc, Instruction::JumpIfFalse(0));
                let ghost pre = code_view(bc@);
                let ghost t1 = self.temp_counter;
                let ghost bt = tmpl_of(
                    stmts_code(body@, locals, Some(loop_start), t1, base + ct.len() + 1),
                );
                assert(innermost(self.loop_stack@) == Some(loop_start));
                match self.compile_body(body, bc) {
                    Err(m) => { return Err(m); },
                    Ok(_) => {},
                }
                emit(bc, Instruction::Jump(loop_start));
                let end = bc.len();
                let ctx = self.loop_stack.pop().unwrap();
                let ghost bj = bt + lift(seq![Instr::Jump(loop_start)]);
                proof {
                    assert(self.loop_stack@ =~= st0);
                    assert(as_ints(Seq::<usize>::empty()) =~= Seq::<int>::empty());
                    lemma_holes_append(bt, lift(seq![Instr::Jump(loop_start)]), HoleKind::Break, pre.len() as int);
                    lemma_lift(seq![Instr::Jump(loop_start)], (pre.len() + bt.len()) as int);
                    assert(as_ints(ctx.break_jumps@) =~= holes(bj, HoleKind::Break, pre.len() as int));
                    lemma_holes_in_range(bj, HoleKind::Break, pre.len() as int);
                    lemma_fill_append(bt, lift(seq![Instr::Jump(loop_start)]), HoleKind::Break, 0);
                    assert(code_view(bc@) =~= pre + placed(bj));
                    assert forall|j: int| 0 <= j < ctx.break_jumps@.len() implies #[trigger] ctx.break_jumps@[j]
                        < bc@.len() by {
                        assert(as_ints(ctx.break_jumps@)[j] == ctx.break_jumps@[j] as int);
                    }
                }
                write_jumps(bc, &ctx.break_jumps, HoleKind::Break, end);
                proof {
                    lemma_write_holes(pre, bj, HoleKind::Break, end);
                    lemma_fill_append(bt, lift(seq![Instr::Jump(loop_start)]), HoleKind::Break, end);
                    assert(fill(lift(seq![Instr::Jump(loop_start)]), HoleKind::Break, end) =~= lift(seq![Instr::Jump(loop_start)]));
                }
                let ghost before_set = code_view(bc@);
                bc.set(jpos, Instruction::JumpIfFalse(end));
                proof {
                    let fb = fill(bt, HoleKind::Break, end);
                    let a = ct + seq![Instr::JumpIfFalse(end)];
                    let m = seq![Instr::Jump(loop_start)];
                    lemma_shape(a, fb, m, Seq::empty(), Seq::empty(), HoleKind::Break, base);
                    lemma_shape(a, fb, m, Seq::empty(), Seq::empty(), HoleKind::Exit, base);
                    lemma_fill_holes(bt, HoleKind::Break, end, HoleKind::Exit, base + a.len());
                    lemma_no_hole_holes(Seq::<Slot>::empty(), HoleKind::Break, base + a.len() + fb.len() + 1);
                    assert(no_hole(Seq::<Slot>::empty(), HoleKind::Break));
                    assert(no_hole(Seq::<Slot>::empty(), HoleKind::Exit));
                    let tt = lift(a) + fb + lift(m) + Seq::<Slot>::empty() + lift(Seq::<Instr>::empty());
                    assert(tt =~= lift(ct) + seq![Slot::Op(Instr::JumpIfFalse(end))] + fb + seq![
                        Slot::Op(Instr::Jump(loop_start)),
                    ]);
                    assert(holes(Seq::<Slot>::empty(), HoleKind::Break, base + a.len() + fb.len() + 1) == Seq::<int>::empty());
                    assert(holes(tt, HoleKind::Break, base) =~= Seq::<int>::empty());
                    lemma_loops_same(st0);
                    assert(code_view(bc@) =~= before_set.update(jpos as int, Instr::JumpIfFalse(end)));
                    assert(code_view(bc@) =~= b0 + (a + placed(fb) + m + placed(
                        Seq::<Slot>::empty(),
                    ) + Seq::<Instr>::empty()));
                }
                Ok(())
            },
            SynStmt::For(target, iter, body) => {
                let ghost ci = code_of(expr_code(*iter, locals, t0, base));
                match self.compile_expr(iter, bc) {
                    Err(m) => { return Err(m); },
                    Ok(_) => {},
                }
                emit(bc, Instruction::GetIter);
                let loop_start = bc.len();
                self.loop_stack.push(LoopContext { start: loop_start, break_jumps: Vec::new() });
                emit(bc, Instruction::ForIter(0));
                let st = match target {
                    SynExpr::Name(v) => self.store_of(v),
                    _ => {
                        return fail("Only simple variable names are supported in for loops");
                    },
                };
                emit(bc, st);
                emit(bc, Instruction::Pop);
                let ghost pre = code_view(bc@);
                let ghost t1 = self.temp_counter;
                let ghost bt = tmpl_of(
                    stmts_code(body@, locals, Some(loop_start), t1, loop_start + 3),
                );
                assert(innermost(self.loop_stack@) == Some(loop_start));
                match self.compile_body(body, bc) {
                    Err(m) => { return Err(m); },
                    Ok(_) => {},
                }
                emit(bc, Instruction::Jump(loop_start));
                let end = bc.len();
                let ctx = self.loop_stack.pop().unwrap();
                let ghost bj = bt + lift(seq![Instr::Jump(loop_start)]);
                proof {
                    assert(self.loop_stack@ =~= st0);
                    assert(as_ints(Seq::<usize>::empty()) =~= Seq::<int>::empty());
                    lemma_holes_append(bt, lift(seq![Instr::Jump(loop_start)]), HoleKind::Break, pre.len() as int);
                    lemma_lift(seq![Instr::Jump(loop_start)], (pre.len() + bt.len()) as int);
                    assert(as_ints(ctx.break_jumps@) =~= holes(bj, HoleKind::Break, pre.len() as int));
                    lemma_holes_in_range(bj, HoleKind::Break, pre.len() as int);
                    lemma_fill_append(bt, lift(seq![Instr::Jump(loop_start)]), HoleKind::Break, 0);
                    assert(code_view(bc@) =~= pre + placed(bj));
                    assert forall|j: int| 0 <= j < ctx.break_jumps@.len() implies #[trigger] ctx.break_jumps@[j]
                        < bc@.len() by {
                        assert(as_ints(ctx.break_jumps@)[j] == ctx.break_jumps@[j] as int);
                    }
                }
                write_jumps(bc, &ctx.break_jumps, HoleKind::Break, end);
                proof {
                    lemma_write_holes(pre, bj, HoleKind::Break, end);
                    lemma_fill_append(bt, lift(seq![Instr::Jump(loop_start)]), HoleKind::Break, end);
                    assert(fill(lift(seq![Instr::Jump(loop_start)]), HoleKind::Break, end) =~= lift(seq![Instr::Jump(loop_start)]));
                }
                let ghost before_set = code_view(bc@);
                assert(before_set =~= pre + (placed(fill(bt, HoleKind::Break, end)) + seq![Instr::Jump(loop_start)]));
                bc.set(loop_start, Instruction::ForIter(end));
                let ghost after_set = code_view(bc@);
                assert(after_set =~= before_set.update(loop_start as int, Instr::ForIter(end)));
                emit(bc, Instruction::Pop);
                assert(code_view(bc@) =~= after_set.push(Instr::Pop));
                proof {
                    let fb = fill(bt, HoleKind::Break, end);
                    let a = ci + seq![
                        Instr::GetIter,
                        Instr::ForIter(end),
                        st@,
                        Instr::Pop,
                    ];
                    let m = seq![Instr::Jump(loop_start), Instr::Pop];
                    lemma_shape(a, fb, m, Seq::empty(), Seq::empty(), HoleKind::Break, base);
                    lemma_shape(a, fb, m, Seq::empty(), Seq::empty(), HoleKind::Exit, base);
                    lemma_fill_holes(bt, HoleKind::Break, end, HoleKind::Exit, base + a.len());
                    assert(no_hole(Seq::<Slot>::empty(), HoleKind::Break));
                    assert(no_hole(Seq::<Slot>::empty(), HoleKind::Exit));
                    let tt = lift(a) + fb + lift(m) + Seq::<Slot>::empty() + lift(Seq::<Instr>::empty());
                    assert(tt =~= lift(ci) + seq![
                        Slot::Op(Instr::GetIter),
                        Slot::Op(Instr::ForIter(end)),
                        Slot::Op(st@),
                        Slot::Op(Instr::Pop),
                    ] + fb + seq![Slot::Op(Instr::Jump(loop_start)), Slot::Op(Instr::Pop)]);
                    assert(holes(Seq::<Slot>::empty(), HoleKind::Break, base + a.len() + fb.len() + 2) == Seq::<int>::empty());
                    assert(holes(tt, HoleKind::Break, base) =~= Seq::<int>::empty());
                    lemma_loops_same(st0);
                    assert(code_view(bc@) =~= b0 + (a + placed(fb) + m + placed(
                        Seq::<Slot>::empty(),
                    ) + Seq::<Instr>::empty()));
                }
                Ok(())
            },
            _ => fail(""),
        }
    }
}


impl Compiler {
    /// Compiles a `try` statement without a `finally` body.
    #[verifier::rlimit(60)]
    #[verifier::spinoff_prover]
    fn compile_try_except(&mut self, s: &SynStmt, bc: &mut ByteCode) -> (res: Result<(), String>)
        requires
            s is Try,
        ensures
            final(self).local_vars == old(self).local_vars,
            stmt_emitted(
                try_except_code(
                    *s,
                    old(self).locals(),
                    innermost(old(self).loop_stack@),
                    old(self).temp_counter,
                    old(bc)@.len() as int,
                ),
                res,
                old(bc)@,
                final(bc)@,
                final(self).temp_counter,
                old(self).loop_stack@,
                final(self).loop_stack@,
            ),
        decreases s, 1int,
    {
        let ghost b0 = code_view(bc@);
        let ghost base = bc@.len() as int;
        let ghost locals = self.locals();
        let ghost t0 = self.temp_counter;
        let ghost lp = innermost(self.loop_stack@);
        let ghost st0 = self.loop_stack@;
        match s {
            SynStmt::Try(body, handlers, _) => {
                let setup_pos = bc.len();
                emit(bc, Instruction::SetupTry(0));
                let ghost bt = tmpl_of(stmts_code(body@, locals, lp, t0, base + 1));
                match self.compile_body(body, bc) {
                    Err(m) => { return Err(m); },
                    Ok(_) => {},
                }
                let ghost st1 = self.loop_stack@;
                emit(bc, Instruction::PopTry);
                let mut exits: Vec<usize> = Vec::new();
                let p0 = bc.len();
                exits.push(p0);
                emit(bc, Instruction::Jump(0));
                let except_start = bc.len();
                let ghost before_set = code_view(bc@);
                bc.set(setup_pos, Instruction::SetupTry(except_start));
                let ghost pre_h = code_view(bc@);
                assert(pre_h =~= before_set.update(setup_pos as int, Instr::SetupTry(except_start)));
                let ghost t1 = self.temp_counter;
                let ghost ht = tmpl_of(handlers_code(handlers@, locals, lp, t1, except_start as int));
                assert(innermost(self.loop_stack@) == lp);
                match self.compile_handlers(handlers, bc, &mut exits) {
                    Err(m) => { return Err(m); },
                    Ok(_) => {},
                }
                emit(bc, Instruction::Raise);
                let after = bc.len();
                let ghost a = seq![Instr::SetupTry(except_start)];
                let ghost m = seq![Instr::PopTry];
                let ghost b2 = seq![Slot::Hole(HoleKind::Exit)] + ht;
                let ghost z = seq![Instr::Raise];
                let ghost tt = lift(a) + bt + lift(m) + b2 + lift(z);
                proof {
                    lemma_shape(a, bt, m, b2, z, HoleKind::Exit, base);
                    lemma_shape(a, bt, m, b2, z, HoleKind::Break, base);
                    lemma_no_hole_holes(bt, HoleKind::Exit, base + 1);
                    lemma_holes_append(seq![Slot::Hole(HoleKind::Exit)], ht, HoleKind::Exit, p0 as int);
                    lemma_holes_append(seq![Slot::Hole(HoleKind::Exit)], ht, HoleKind::Break, p0 as int);
                    lemma_holes_single(Slot::Hole(HoleKind::Exit), HoleKind::Exit, p0 as int);
                    lemma_holes_single(Slot::Hole(HoleKind::Exit), HoleKind::Break, p0 as int);
                    assert(holes(tt, HoleKind::Exit, base) =~= seq![p0 as int] + holes(
                        ht,
                        HoleKind::Exit,
                        except_start as int,
                    ));
                    assert(as_ints(exits@) =~= holes(tt, HoleKind::Exit, base));
                    assert(code_view(bc@) =~= b0 + placed(tt));
                    lemma_holes_in_range(tt, HoleKind::Exit, base);
                    assert forall|j: int| 0 <= j < exits@.len() implies #[trigger] exits@[j]
                        < bc@.len() by {
                        assert(as_ints(exits@)[j] == exits@[j] as int);
                    }
                }
                write_jumps(bc, &exits, HoleKind::Exit, after);
                proof {
                    lemma_write_holes(b0, tt, HoleKind::Exit, after);
                    lemma_fill_holes(tt, HoleKind::Exit, after, HoleKind::Break, base);
                    assert(tt =~= seq![Slot::Op(Instr::SetupTry(except_start))] + bt + seq![
                        Slot::Op(Instr::PopTry),
                        Slot::Hole(HoleKind::Exit),
                    ] + ht + seq![Slot::Op(Instr::Raise)]);
                    assert(holes(tt, HoleKind::Break, base) =~= holes(
                        bt,
                        HoleKind::Break,
                        base + 1,
                    ) + holes(ht, HoleKind::Break, except_start as int));
                    lemma_loops_trans(
                        st0,
                        st1,
                        self.loop_stack@,
                        holes(bt, HoleKind::Break, base + 1),
                        holes(ht, HoleKind::Break, except_start as int),
                    );
                }
                Ok(())
            },
            _ => fail(""),
        }
    }

    /// Compiles one `except` clause, recording the place of its jump past
    /// the `try` statement in `exits`.
    fn compile_handler(
        &mut self,
        h: &ExceptHandler,
        bc: &mut ByteCode,
        exits: &mut Vec<usize>,
    ) -> (res: Result<(), String>)
        ensures
            final(self).local_vars == old(self).local_vars,
            match handler_code(
                *h,
                old(self).locals(),
                innermost(old(self).loop_stack@),
                old(self).temp_counter,
                old(bc)@.len() as int,
            ) {
                Ok((t, n)) => {
                    &&& res is Ok
                    &&& code_view(final(bc)@) == code_view(old(bc)@) + placed(t)
                    &&& final(bc)@.len() == old(bc)@.len() + t.len()
                    &&& final(self).temp_counter == n
                    &&& loops_after(
                        old(self).loop_stack@,
                        final(self).loop_stack@,
                        holes(t, HoleKind::Break, old(bc)@.len() as int),
                    )
                    &&& as_ints(final(exits)@) == as_ints(old(exits)@) + holes(
                        t,
                        HoleKind::Exit,
                        old(bc)@.len() as int,
                    )
                },
                Err(m) => res matches Err(x) && x@ == m,
            },
        decreases h, 2int,
    {
        match &h.type_ {
            Some(_) => self.compile_typed_handler(h, bc, exits),
            None => self.compile_catch_all(h, bc, exits),
        }
    }

    /// Compiles an `except` clause that names an exception type.
    #[verifier::rlimit(60)]
    #[verifier::spinoff_prover]
    fn compile_typed_handler(
        &mut self,
        h: &ExceptHandler,
        bc: &mut ByteCode,
        exits: &mut Vec<usize>,
    ) -> (res: Result<(), String>)
        requires
            h.type_ is Some,
        ensures
            final(self).local_vars == old(self).local_vars,
            match handler_code(
                *h,
                old(self).locals(),
                innermost(old(self).loop_stack@),
                old(self).temp_counter,
                old(bc)@.len() as int,
            ) {
                Ok((t, n)) => {
                    &&& res is Ok
                    &&& code_view(final(bc)@) == code_view(old(bc)@) + placed(t)
                    &&& final(bc)@.len() == old(bc)@.len() + t.len()
                    &&& final(self).temp_counter == n
                    &&& loops_after(
                        old(self).loop_stack@,
                        final(self).loop_stack@,
                        holes(t, HoleKind::Break, old(bc)@.len() as int),
                    )
                    &&& as_ints(final(exits)@) == as_ints(old(exits)@) + holes(
                        t,
                        HoleKind::Exit,
                        old(bc)@.len() as int,
                    )
                },
                Err(m) => res matches Err(x) && x@ == m,
            },
        decreases h, 1int,
    {
        let ghost before = code_view(bc@);
        let ghost base = bc@.len() as int;
        let ghost locals = self.locals();
        let ghost t0 = self.temp_counter;
        let ghost lp = innermost(self.loop_stack@);
        let ghost st0 = self.loop_stack@;
        let ghost ex0 = exits@;
        match &h.type_ {
            Some(te) => {
                emit(bc, Instruction::Dup);
                let et = match te {
                    SynExpr::Name(nm) => match exception_of_name(nm.as_str()) {
                        Some(x) => x,
                        None => {
                            return fail2("Unknown exception type: ", nm.as_str());
                        },
                    },
                    _ => {
                        return fail("Exception type must be a name");
                    },
                };
                let code = et.as_i32();
                emit(bc, Instruction::PushInt(code));
                emit(bc, Instruction::MatchException);
                let jpos = bc.len();
                emit(bc, Instruction::JumpIfFalse(0));
                emit(bc, Instruction::Pop);
                let ghost bind: Seq<Instr>;
                match &h.name {
                    Some(v) => {
                        let sv = self.store_of(v);
                        emit(bc, sv);
                        emit(bc, Instruction::Pop);
                        proof {
                            bind = seq![sv@, Instr::Pop];
                        }
                    },
                    None => {
                        emit(bc, Instruction::Pop);
                        proof {
                            bind = seq![Instr::Pop];
                        }
                    },
                }
                assert(bind == bind_code(h.name, locals));
                let ghost pre_b = code_view(bc@);
                let ghost bt = tmpl_of(stmts_code(h.body@, locals, lp, t0, base + 5 + bind.len()));
                match self.compile_body(&h.body, bc) {
                    Err(m) => {
                        return Err(m);
                    },
                    Ok(_) => {},
                }
                let xpos = bc.len();
                exits.push(xpos);
                emit(bc, Instruction::Jump(0));
                let next = bc.len();
                let ghost before_set = code_view(bc@);
                bc.set(jpos, Instruction::JumpIfFalse(next));
                emit(bc, Instruction::Pop);
                proof {
                    let head = seq![
                        Instr::Dup,
                        Instr::PushInt(et.code() as i32),
                        Instr::MatchException,
                    ];
                    let a = head + seq![Instr::JumpIfFalse(next), Instr::Pop] + bind;
                    let b2 = seq![Slot::Hole(HoleKind::Exit)];
                    let z = seq![Instr::Pop];
                    lemma_shape(a, bt, Seq::empty(), b2, z, HoleKind::Exit, base);
                    lemma_shape(a, bt, Seq::empty(), b2, z, HoleKind::Break, base);
                    lemma_no_hole_holes(bt, HoleKind::Exit, base + a.len());
                    lemma_holes_single(Slot::Hole(HoleKind::Exit), HoleKind::Exit, xpos as int);
                    lemma_holes_single(Slot::Hole(HoleKind::Exit), HoleKind::Break, xpos as int);
                    let piece = lift(a) + bt + lift(Seq::<Instr>::empty()) + b2 + lift(z);
                    assert(piece =~= lift(head) + seq![
                        Slot::Op(Instr::JumpIfFalse(next)),
                        Slot::Op(Instr::Pop),
                    ] + lift(bind) + bt + seq![Slot::Hole(HoleKind::Exit), Slot::Op(Instr::Pop)]);
                    assert(code_view(bc@) =~= before_set.update(
                        jpos as int,
                        Instr::JumpIfFalse(next),
                    ).push(Instr::Pop));
                    assert(code_view(bc@) =~= before + placed(piece));
                    assert(as_ints(exits@) =~= as_ints(ex0) + holes(piece, HoleKind::Exit, base));
                    assert(holes(piece, HoleKind::Break, base) =~= holes(bt, HoleKind::Break, base + a.len()));
                }
            },
            None => {
                return fail("");
            },
        }
        Ok(())
    }

    /// Compiles an `except` clause that catches every exception.
    #[verifier::rlimit(60)]
    #[verifier::spinoff_prover]
    fn compile_catch_all(
        &mut self,
        h: &ExceptHandler,
        bc: &mut ByteCode,
        exits: &mut Vec<usize>,
    ) -> (res: Result<(), String>)
        requires
            h.type_ is None,
        ensures
            final(self).local_vars == old(self).local_vars,
            match handler_code(
                *h,
                old(self).locals(),
                innermost(old(self).loop_stack@),
                old(self).temp_counter,
                old(bc)@.len() as int,
            ) {
                Ok((t, n)) => {
                    &&& res is Ok
                    &&& code_view(final(bc)@) == code_view(old(bc)@) + placed(t)
                    &&& final(bc)@.len() == old(bc)@.len() + t.len()
                    &&& final(self).temp_counter == n
                    &&& loops_after(
                        old(self).loop_stack@,
                        final(self).loop_stack@,
                        holes(t, HoleKind::Break, old(bc)@.len() as int),
                    )
                    &&& as_ints(final(exits)@) == as_ints(old(exits)@) + holes(
                        t,
                        HoleKind::Exit,
                        old(bc)@.len() as int,
                    )
                },
                Err(m) => res matches Err(x) && x@ == m,
            },
        decreases h, 1int,
    {
        let ghost before = code_view(bc@);
        let ghost base = bc@.len() as int;
        let ghost locals = self.locals();
        let ghost t0 = self.temp_counter;
        let ghost lp = innermost(self.loop_stack@);
        let ghost st0 = self.loop_stack@;
        let ghost ex0 = exits@;
        let ghost bind: Seq<Instr>;
        match &h.name {
            Some(v) => {
                let sv = self.store_of(v);
                emit(bc, sv);
                emit(bc, Instruction::Pop);
                proof {
                    bind = seq![sv@, Instr::Pop];
                }
            },
            None => {
                emit(bc, Instruction::Pop);
                proof {
                    bind = seq![Instr::Pop];
                }
            },
        }
        assert(bind == bind_code(h.name, locals));
        let ghost bt = tmpl_of(stmts_code(h.body@, locals, lp, t0, base + bind.len()));
        match self.compile_body(&h.body, bc) {
            Err(m) => {
                return Err(m);
            },
            Ok(_) => {},
        }
        let xpos = bc.len();
        exits.push(xpos);
        emit(bc, Instruction::Jump(0));
        proof {
            let b2 = seq![Slot::Hole(HoleKind::Exit)];
            lemma_shape(bind, bt, Seq::empty(), b2, Seq::empty(), HoleKind::Exit, base);
            lemma_shape(bind, bt, Seq::empty(), b2, Seq::empty(), HoleKind::Break, base);
            lemma_no_hole_holes(bt, HoleKind::Exit, base + bind.len());
            lemma_holes_single(Slot::Hole(HoleKind::Exit), HoleKind::Exit, xpos as int);
            lemma_holes_single(Slot::Hole(HoleKind::Exit), HoleKind::Break, xpos as int);
            let piece = lift(bind) + bt + lift(Seq::<Instr>::empty()) + b2 + lift(Seq::<Instr>::empty());
            assert(piece =~= lift(bind) + bt + seq![Slot::Hole(HoleKind::Exit)]);
            assert(code_view(bc@) =~= before + placed(piece));
            assert(as_ints(exits@) =~= as_ints(ex0) + holes(piece, HoleKind::Exit, base));
            assert(holes(piece, HoleKind::Break, base) =~= holes(bt, HoleKind::Break, base + bind.len()));
        }
        Ok(())
    }

    /// Compiles the `except` clauses of a `try` statement, recording the
    /// place of each one's jump past the statement in `exits`.
    fn compile_handlers(
        &mut self,
        hs: &Vec<ExceptHandler>,
        bc: &mut ByteCode,
        exits: &mut Vec<usize>,
    ) -> (res: Result<(), String>)
        ensures
            final(self).local_vars == old(self).local_vars,
            match handlers_code(
                hs@,
                old(self).locals(),
                innermost(old(self).loop_stack@),
                old(self).temp_counter,
                old(bc)@.len() as int,
            ) {
                Ok((t, n)) => {
                    &&& res is Ok
                    &&& code_view(final(bc)@) == code_view(old(bc)@) + placed(t)
                    &&& final(bc)@.len() == old(bc)@.len() + t.len()
                    &&& final(self).temp_counter == n
                    &&& loops_after(
                        old(self).loop_stack@,
                        final(self).loop_stack@,
                        holes(t, HoleKind::Break, old(bc)@.len() as int),
                    )
                    &&& as_ints(final(exits)@) == as_ints(old(exits)@) + holes(
                        t,
                        HoleKind::Exit,
                        old(bc)@.len() as int,
                    )
                },
                Err(m) => res matches Err(x) && x@ == m,
            },
        decreases hs, 0int,
    {
        let ghost b0 = code_view(bc@);
        let ghost base = bc@.len() as int;
        let ghost locals = self.locals();
        let ghost t0 = self.temp_counter;
        let ghost lp = innermost(self.loop_stack@);
        let ghost e0 = as_ints(exits@);
        let ghost mut t: Seq<Slot> = Seq::empty();
        let n = hs.len();
        let mut i: usize = 0;
        proof {
            lemma_loops_same(self.loop_stack@);
            assert(hs@.subrange(0, n as int) =~= hs@);
            assert(code_view(bc@).subrange(base, bc@.len() as int) =~= placed(t));
            assert(holes(t, HoleKind::Break, base) == Seq::<int>::empty());
            assert(holes(t, HoleKind::Exit, base) == Seq::<int>::empty());
            assert(e0 + Seq::<int>::empty() =~= e0);
            assert(t + Seq::<Slot>::empty() =~= t);
        }
        while i < n
            invariant
                n == hs@.len(),
                i <= n,
                self.local_vars == old(self).local_vars,
                locals == self.locals(),
                t0 == old(self).temp_counter,
                base == old(bc)@.len(),
                b0 == code_view(old(bc)@),
                e0 == as_ints(old(exits)@),
                lp == innermost(old(self).loop_stack@),
                lp == innermost(self.loop_stack@),
                base + t.len() == bc@.len(),
                code_view(bc@).subrange(0, base) == b0,
                b0.len() == base,
                code_view(bc@).subrange(base, bc@.len() as int) == placed(t),
                as_ints(exits@) == e0 + holes(t, HoleKind::Exit, base),
                loops_after(old(self).loop_stack@, self.loop_stack@, holes(t, HoleKind::Break, base)),
                handlers_code(hs@, locals, lp, t0, base) == after_slots(
                    t,
                    handlers_code(
                        hs@.subrange(i as int, n as int),
                        locals,
                        lp,
                        self.temp_counter,
                        bc@.len() as int,
                    ),
                ),
            decreases n - i,
        {
            let ghost tail = hs@.subrange(i as int, n as int);
            assert(tail[0] == hs@[i as int]);
            assert(tail.drop_first() =~= hs@.subrange(i + 1, n as int));
            let ghost before = code_view(bc@);
            let ghost ti = self.temp_counter;
            let ghost li = bc@.len() as int;
            let ghost st0 = self.loop_stack@;
            let ghost piece = tmpl_of(handler_code(hs@[i as int], locals, lp, ti, li));
            match self.compile_handler(&hs[i], bc, exits) {
                Err(m) => {
                    assert(handlers_code(tail, locals, lp, ti, li) is Err);
                    return Err(m);
                },
                Ok(_) => {},
            }
            proof {
                lemma_after_slots_assoc(
                    t,
                    piece,
                    handlers_code(
                        hs@.subrange(i + 1, n as int),
                        locals,
                        lp,
                        self.temp_counter,
                        bc@.len() as int,
                    ),
                );
                lemma_holes_append(t, piece, HoleKind::Break, base);
                lemma_holes_append(t, piece, HoleKind::Exit, base);
                lemma_loops_trans(
                    old(self).loop_stack@,
                    st0,
                    self.loop_stack@,
                    holes(t, HoleKind::Break, base),
                    holes(piece, HoleKind::Break, li),
                );
                lemma_fill_append(t, piece, HoleKind::Break, 0);
                assert(as_ints(exits@) =~= e0 + holes(t + piece, HoleKind::Exit, base));
                assert(code_view(bc@).subrange(base, bc@.len() as int) =~= placed(t + piece));
                assert(code_view(bc@).subrange(0, base) =~= before.subrange(0, base));
                t = t + piece;
            }
            i = i + 1;
        }
        proof {
            assert(hs@.subrange(n as int, n as int) =~= Seq::<ExceptHandler>::empty());
            assert(t + Seq::<Slot>::empty() =~= t);
            assert(code_view(bc@) =~= b0 + placed(t));
        }
        Ok(())
    }

    /// Compiles a `try` statement with a `finally` body.
    #[verifier::rlimit(60)]
    #[verifier::spinoff_prover]
    fn compile_try_finally(&mut self, s: &SynStmt, bc: &mut ByteCode) -> (res: Result<(), String>)
        requires
            s is Try,
        ensures
            final(self).local_vars == old(self).local_vars,
            stmt_emitted(
                try_finally_code(
                    *s,
                    old(self).locals(),
                    innermost(old(self).loop_stack@),
                    old(self).temp_counter,
                    old(bc)@.len() as int,
                ),
                res,
                old(bc)@,
                final(bc)@,
                final(self).temp_counter,
                old(self).loop_stack@,
                final(self).loop_stack@,
            ),
        decreases s, 2int,
    {
        let ghost b0 = code_view(bc@);
        let ghost base = bc@.len() as int;
        let ghost locals = self.locals();
        let ghost t0 = self.temp_counter;
        let ghost lp = innermost(self.loop_stack@);
        let ghost st0 = self.loop_stack@;
        match s {
            SynStmt::Try(body, handlers, finalbody) => {
                let setup = bc.len();
                emit(bc, Instruction::SetupFinally(0));
                let ghost it = tmpl_of(
                    if handlers@.len() > 0 {
                        try_except_code(*s, locals, lp, t0, base + 1)
                    } else {
                        stmts_code(body@, locals, lp, t0, base + 1)
                    },
                );
                if handlers.len() > 0 {
                    match self.compile_try_except(s, bc) {
                        Err(m) => { return Err(m); },
                        Ok(_) => {},
                    }
                } else {
                    match self.compile_body(body, bc) {
                        Err(m) => { return Err(m); },
                        Ok(_) => {},
                    }
                }
                let ghost st1 = self.loop_stack@;
                emit(bc, Instruction::PopFinally);
                emit(bc, Instruction::PushNone);
                let jpos = bc.len();
                emit(bc, Instruction::Jump(0));
                let fs = bc.len();
                let ghost before_set = code_view(bc@);
                bc.set(jpos, Instruction::Jump(fs));
                bc.set(setup, Instruction::SetupFinally(fs));
                let ghost after_set = code_view(bc@);
                assert(after_set =~= before_set.update(jpos as int, Instr::Jump(fs)).update(setup as int, Instr::SetupFinally(fs)));
                let ghost t1 = self.temp_counter;
                let ghost ft = tmpl_of(stmts_code(finalbody@, locals, lp, t1, fs as int));
                assert(innermost(self.loop_stack@) == lp);
                match self.compile_body(finalbody, bc) {
                    Err(m) => { return Err(m); },
                    Ok(_) => {},
                }
                emit(bc, Instruction::EndFinally);
                proof {
                    let a = seq![Instr::SetupFinally(fs)];
                    let m = seq![Instr::PopFinally, Instr::PushNone, Instr::Jump(fs)];
                    let z = seq![Instr::EndFinally];
                    lemma_shape(a, it, m, ft, z, HoleKind::Break, base);
                    lemma_shape(a, it, m, ft, z, HoleKind::Exit, base);
                    let tt = lift(a) + it + lift(m) + ft + lift(z);
                    assert(tt =~= seq![Slot::Op(Instr::SetupFinally(fs))] + it + seq![
                        Slot::Op(Instr::PopFinally),
                        Slot::Op(Instr::PushNone),
                        Slot::Op(Instr::Jump(fs)),
                    ] + ft + seq![Slot::Op(Instr::EndFinally)]);
                    lemma_loops_trans(
                        st0,
                        st1,
                        self.loop_stack@,
                        holes(it, HoleKind::Break, base + 1),
                        holes(ft, HoleKind::Break, fs as int),
                    );
                    assert(code_view(bc@) =~= b0 + (a + placed(it) + m + placed(ft) + z));
                }
                Ok(())
            },
            _ => fail(""),
        }
    }
}


impl Compiler {
    /// Compiles a parsed program to bytecode: exactly `program_code` of it,
    /// or its error.
    pub fn compile_program(program: &Program) -> (res: Result<ByteCode, String>)
        ensures
            match program_code(*program) {
                Ok(c) => res matches Ok(bc) && code_view(bc@) == c,
                Err(m) => res matches Err(x) && x@ == m,
            },
    {
        let mut compiler = Compiler {
            local_vars: Vec::new(),
            loop_stack: Vec::new(),
            temp_counter: 0,
        };
        let mut bc: ByteCode = Vec::new();
        assert(compiler.locals() =~= Seq::<Seq<char>>::empty());
        assert(innermost(compiler.loop_stack@) == Option::<usize>::None);
        match program {
            Program::Module(stmts) => {
                let n = stmts.len();
                if n == 0 {
                    assert(code_view(bc@) =~= Seq::<Instr>::empty());
                    return Ok(bc);
                }
                assert(stmts@.subrange(0, n - 1) =~= stmts@.drop_last());
                match compiler.compile_stmts(stmts, n - 1, &mut bc) {
                    Err(m) => {
                        return Err(m);
                    },
                    Ok(_) => {},
                }
                let ghost t = tmpl_of(stmts_code(stmts@.drop_last(), Seq::empty(), None, 0, 0));
                assert(code_view(bc@) =~= placed(t));
                assert(stmts@.last() == stmts@[n - 1]);
                assert(compiler.locals() =~= Seq::<Seq<char>>::empty());
                match &stmts[n - 1] {
                    SynStmt::Expr(e) => {
                        match compiler.compile_expr(e, &mut bc) {
                            Err(m) => {
                                return Err(m);
                            },
                            Ok(_) => {},
                        }
                    },
                    last => {
                        match compiler.compile_stmt(last, &mut bc) {
                            Err(m) => {
                                return Err(m);
                            },
                            Ok(_) => {},
                        }
                    },
                }
                Ok(bc)
            },
            Program::Expression(e) => {
                match compiler.compile_expr(e, &mut bc) {
                    Err(m) => {
                        return Err(m);
                    },
                    Ok(_) => {},
                }
                assert(code_view(bc@) =~= code_of(expr_code(*e, Seq::empty(), 0, 0)));
                Ok(bc)
            },
        }
    }
}

impl Compiler {
    /// Compiles Python source: as a module where it parses as one, else as a
    /// lone expression; where neither parses, `Parse error: ` and the
    /// expression parser's error.
    pub fn compile(source: &str) -> (res: Result<ByteCode, String>)
        ensures
            match parsed_suite(source@) {
                Some(ss) => match module_code(ss) {
                    Ok(c) => res matches Ok(bc) && code_view(bc@) == c,
                    Err(m) => res matches Err(x) && x@ == m,
                },
                None => match parsed_expr(source@) {
                    Ok(e) => match program_code(Program::Expression(e)) {
                        Ok(c) => res matches Ok(bc) && code_view(bc@) == c,
                        Err(m) => res matches Err(x) && x@ == m,
                    },
                    Err(m) => res matches Err(x) && x@ == "Parse error: "@ + m,
                },
            },
    {
        match parse_suite(source) {
            Some(stmts) => {
                let program = Program::Module(stmts);
                Compiler::compile_program(&program)
            },
            None => match parse_expr(source) {
                Ok(e) => {
                    let program = Program::Expression(e);
                    Compiler::compile_program(&program)
                },
                Err(m) => {
                    let mut msg = String::from_str("Parse error: ");
                    msg.append(m.as_str());
                    Err(msg)
                },
            },
        }
    }
}

} // verus!
