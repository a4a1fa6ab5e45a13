//! The compiler turns every `break` and `continue` into a plain jump: no
//! `Break` or `Continue` instruction, which the bytecode format cannot
//! hold, is ever emitted.
use vstd::prelude::*;
use crate::ast::{Alias, DictItem, ExceptHandler, SynExpr, Program, SynStmt};
use crate::bytecode::Instr;
use crate::codegen::{fill, hole_instr, lift, placed, slot_instr, HoleKind, Slot};
use crate::compiler::{
    bind_code, binop_instr, exception_named, handler_type, listcomp_name, next_tmp, store_name,
    assign_code, bool_chain, dict_code, expr_code, exprs_code, filters_code, fstring_first,
    fstring_rest, function_code, handler_code, handlers_code, import_code,
    import_from_code, program_code, slice_part, stmt_code, stmts_code, target_code,
    try_except_code, try_finally_code, unpack_stores,
};
use crate::strings::views;

verus! {

/// An instruction other than `Break` and `Continue`.
pub open spec fn resolved(x: Instr) -> bool {
    !(x is Break) && !(x is Continue)
}

/// Code without `Break` or `Continue`.
#[verifier::opaque]
pub open spec fn resolved_code(c: Seq<Instr>) -> bool {
    forall|i: int| 0 <= i < c.len() ==> resolved(#[trigger] c[i])
}

/// A place of a template that is a hole or a resolved instruction.
pub open spec fn resolved_slot(s: Slot) -> bool {
    match s {
        Slot::Op(x) => resolved(x),
        Slot::Hole(_) => true,
    }
}

/// A template whose instructions are all resolved.
#[verifier::opaque]
pub open spec fn resolved_template(t: Seq<Slot>) -> bool {
    forall|i: int| 0 <= i < t.len() ==> resolved_slot(#[trigger] t[i])
}

/// The code of a successful result is resolved.
pub open spec fn resolved_emit(r: Result<(Seq<Instr>, usize), Seq<char>>) -> bool {
    r matches Ok((c, _)) ==> resolved_code(c)
}

/// The template of a successful result is resolved.
pub open spec fn resolved_emit_t(r: Result<(Seq<Slot>, usize), Seq<char>>) -> bool {
    r matches Ok((t, _)) ==> resolved_template(t)
}

/// Resolved code side by side is resolved.
broadcast proof fn lemma_concat(a: Seq<Instr>, b: Seq<Instr>)
    requires
        resolved_code(a),
        resolved_code(b),
    ensures
        #[trigger] resolved_code(a + b),
{
    reveal(resolved_code);
    reveal(resolved_template);
    assert forall|i: int| 0 <= i < (a + b).len() implies resolved(#[trigger] (a + b)[i]) by {
        if i < a.len() {
            assert((a + b)[i] == a[i]);
        } else {
            assert((a + b)[i] == b[i - a.len()]);
        }
    }
}

/// Resolved code with a resolved instruction added is resolved.
broadcast proof fn lemma_push(a: Seq<Instr>, x: Instr)
    requires
        resolved_code(a),
        resolved(x),
    ensures
        #[trigger] resolved_code(a.push(x)),
{
    reveal(resolved_code);
    reveal(resolved_template);
    assert forall|i: int| 0 <= i < a.push(x).len() implies resolved(#[trigger] a.push(x)[i]) by {
        if i < a.len() {
            assert(a.push(x)[i] == a[i]);
        }
    }
}

/// Resolved templates side by side are resolved.
broadcast proof fn lemma_concat_t(a: Seq<Slot>, b: Seq<Slot>)
    requires
        resolved_template(a),
        resolved_template(b),
    ensures
        #[trigger] resolved_template(a + b),
{
    reveal(resolved_code);
    reveal(resolved_template);
    assert forall|i: int| 0 <= i < (a + b).len() implies resolved_slot(#[trigger] (a + b)[i]) by {
        if i < a.len() {
            assert((a + b)[i] == a[i]);
        } else {
            assert((a + b)[i] == b[i - a.len()]);
        }
    }
}

/// A resolved template with a resolved place added is resolved.
broadcast proof fn lemma_push_t(a: Seq<Slot>, x: Slot)
    requires
        resolved_template(a),
        resolved_slot(x),
    ensures
        #[trigger] resolved_template(a.push(x)),
{
    reveal(resolved_code);
    reveal(resolved_template);
    assert forall|i: int| 0 <= i < a.push(x).len() implies resolved_slot(#[trigger] a.push(x)[i]) by {
        if i < a.len() {
            assert(a.push(x)[i] == a[i]);
        }
    }
}

/// Resolved code as a template is resolved.
broadcast proof fn lemma_lift(c: Seq<Instr>)
    requires
        resolved_code(c),
    ensures
        #[trigger] resolved_template(lift(c)),
{
    reveal(resolved_code);
    reveal(resolved_template);
    assert forall|i: int| 0 <= i < lift(c).len() implies resolved_slot(#[trigger] lift(c)[i]) by {
        assert(lift(c)[i] == Slot::Op(c[i]));
    }
}

/// A resolved template is emitted as resolved code: its holes become jumps.
broadcast proof fn lemma_placed(t: Seq<Slot>)
    requires
        resolved_template(t),
    ensures
        #[trigger] resolved_code(placed(t)),
{
    reveal(resolved_code);
    reveal(resolved_template);
    assert forall|i: int| 0 <= i < placed(t).len() implies resolved(#[trigger] placed(t)[i]) by {
        assert(placed(t)[i] == slot_instr(t[i]));
        assert(resolved_slot(t[i]));
    }
}

/// Filling the holes of a resolved template with jumps keeps it resolved.
broadcast proof fn lemma_fill(t: Seq<Slot>, k: HoleKind, target: usize)
    requires
        resolved_template(t),
    ensures
        #[trigger] resolved_template(fill(t, k, target)),
{
    reveal(resolved_code);
    reveal(resolved_template);
    assert forall|i: int| 0 <= i < fill(t, k, target).len() implies resolved_slot(
        #[trigger] fill(t, k, target)[i],
    ) by {
        assert(resolved_slot(t[i]));
        assert(resolved(hole_instr(k, target)));
    }
}

/// Empty code and the empty template are resolved.
proof fn lemma_empty()
    ensures
        resolved_code(Seq::<Instr>::empty()),
        resolved_template(Seq::<Slot>::empty()),
{
    reveal(resolved_code);
    reveal(resolved_template);
}

/// The facts above, for use by the lemmas below.
broadcast group group_resolved {
    lemma_concat,
    lemma_push,
    lemma_concat_t,
    lemma_push_t,
    lemma_lift,
    lemma_placed,
    lemma_fill,
}

/// The code of an expression is resolved.
#[verifier::spinoff_prover]
#[verifier::rlimit(100)]
proof fn lemma_expr(e: SynExpr, locals: Seq<Seq<char>>, tmp: usize, base: int)
    ensures
        resolved_emit(expr_code(e, locals, tmp, base)),
    decreases e,
{
    broadcast use group_resolved;

    lemma_empty();
    match e {
        SynExpr::BinOp(l, _, r) => {
            lemma_expr(*l, locals, tmp, base);
            if let Ok((cl, t1)) = expr_code(*l, locals, tmp, base) {
                lemma_expr(*r, locals, t1, base + cl.len());
            }
            assert(resolved_emit(expr_code(e, locals, tmp, base)));
        },
        SynExpr::Compare(l, _, rights) => {
            lemma_expr(*l, locals, tmp, base);
            if rights@.len() > 0 {
                if let Ok((cl, t1)) = expr_code(*l, locals, tmp, base) {
                    lemma_expr(rights@[0], locals, t1, base + cl.len());
                }
            }
            assert(resolved_emit(expr_code(e, locals, tmp, base)));
        },
        SynExpr::Call(f, args) => {
            lemma_exprs(args@, locals, tmp, base);
            lemma_exprs(args@, locals, tmp, base + 1);
            if args@.len() > 0 {
                lemma_expr(args@[0], locals, tmp, base);
            }
            match *f {
                SynExpr::Attribute(obj, _) => {
                    lemma_expr(*obj, locals, tmp, base);
                    if let Ok((co, t1)) = expr_code(*obj, locals, tmp, base) {
                        lemma_exprs(args@, locals, t1, base + co.len());
                    }
                },
                _ => {},
            }
            lemma_expr(*f, locals, tmp, base);
            if let Ok((cf, t1)) = expr_code(*f, locals, tmp, base) {
                lemma_exprs(args@, locals, t1, base + cf.len());
            }
            assert(resolved_emit(expr_code(e, locals, tmp, base)));
        },
        SynExpr::List(elts) => {
            lemma_exprs(elts@, locals, tmp, base);
            assert(resolved_emit(expr_code(e, locals, tmp, base)));
        },
        SynExpr::ListComp(elt, gens) => {
            if gens@.len() > 0 {
                let g = gens@[0];
                lemma_expr(g.iter, locals, next_tmp(tmp), base + 3);
                if let Ok((ci, t1)) = expr_code(g.iter, locals, next_tmp(tmp), base + 3) {
                    let fbase = base + 3 + ci.len() + 1 + 3;
                    lemma_filters(g.ifs@, locals, t1, fbase);
                    if let Ok((cf, t2)) = filters_code(g.ifs@, locals, t1, fbase) {
                        let ebase = fbase + cf.len() + 1;
                        lemma_expr(*elt, locals, t2, ebase);
                        if let Ok((ce, _)) = expr_code(*elt, locals, t2, ebase) {
                            let name = listcomp_name(tmp);
                            let loop_start = base + 3 + ci.len() + 1;
                            let after = ebase + ce.len() + 2;
                            let loop_end = after + 1;
                            if let SynExpr::Name(v) = g.target {
                                assert(resolved_code(
                                    seq![Instr::BuildList(0), Instr::SetGlobal(name), Instr::Pop],
                                )) by {
                                    reveal(resolved_code);
                                }
                                assert(resolved_code(
                                    seq![
                                        Instr::GetIter,
                                        Instr::ForIter(loop_end as usize),
                                        store_name(locals, v@),
                                        Instr::Pop,
                                    ],
                                )) by {
                                    reveal(resolved_code);
                                }
                                assert(resolved_code(
                                    seq![
                                        Instr::CallMethod("append"@, 1),
                                        Instr::Pop,
                                        Instr::Jump(loop_start as usize),
                                        Instr::GetGlobal(name),
                                    ],
                                )) by {
                                    reveal(resolved_code);
                                }
                            }
                        }
                    }
                }
            }
            assert(resolved_emit(expr_code(e, locals, tmp, base)));
        },
        SynExpr::Tuple(elts) => {
            lemma_exprs(elts@, locals, tmp, base);
            assert(resolved_emit(expr_code(e, locals, tmp, base)));
        },
        SynExpr::Dict(items) => {
            lemma_dict(items@, locals, tmp, base);
            assert(resolved_emit(expr_code(e, locals, tmp, base)));
        },
        SynExpr::Subscript(obj, idx) => {
            lemma_expr(*obj, locals, tmp, base);
            if let Ok((co, t1)) = expr_code(*obj, locals, tmp, base) {
                let b1 = base + co.len();
                match *idx {
                    SynExpr::Slice(lo, hi, st, _) => {
                        lemma_slice_part(lo, locals, t1, b1);
                        if let Ok((c1, t2)) = slice_part(lo, locals, t1, b1) {
                            lemma_slice_part(hi, locals, t2, b1 + c1.len());
                            if let Ok((c2, t3)) = slice_part(hi, locals, t2, b1 + c1.len()) {
                                lemma_slice_part(st, locals, t3, b1 + c1.len() + c2.len());
                                if let Ok((c3, _)) = slice_part(st, locals, t3, b1 + c1.len() + c2.len()) {
                                    assert(resolved_code(co + c1 + c2 + c3));
                                    assert(resolved_code(seq![Instr::BuildSlice, Instr::GetItemSlice])) by {
                                        reveal(resolved_code);
                                    }
                                    assert(resolved_code(co + c1 + c2 + c3 + seq![Instr::BuildSlice, Instr::GetItemSlice]));
                                }
                            }
                        }
                    },
                    _ => lemma_expr(*idx, locals, t1, b1),
                }
            }
            assert(resolved_emit(expr_code(e, locals, tmp, base)));
        },
        SynExpr::Attribute(obj, _) => {
            lemma_expr(*obj, locals, tmp, base);
            assert(resolved_emit(expr_code(e, locals, tmp, base)));
        },
        SynExpr::UnaryOp(_, x) => {
            lemma_expr(*x, locals, tmp, base);
            assert(resolved_emit(expr_code(e, locals, tmp, base)));
        },
        SynExpr::BoolOp(op, first, rest) => {
            lemma_expr(*first, locals, tmp, base);
            if let Ok((c0, t1)) = expr_code(*first, locals, tmp, base) {
                lemma_bool_chain(op, rest@, locals, t1, base + c0.len());
            }
            assert(resolved_emit(expr_code(e, locals, tmp, base)));
        },
        SynExpr::JoinedStr(parts) => {
            if parts@.len() > 0 {
                lemma_fstring_first(parts@[0], locals, tmp, base);
                if let Ok((c, t1)) = fstring_first(parts@[0], locals, tmp, base) {
                    lemma_fstring_rest(parts@.drop_first(), locals, t1, base + c.len());
                }
            }
            assert(resolved_emit(expr_code(e, locals, tmp, base)));
        },
        SynExpr::Await(x) => {
            lemma_expr(*x, locals, tmp, base);
            assert(resolved_emit(expr_code(e, locals, tmp, base)));
        },
        _ => {},
    }
}

/// The code of expressions in order is resolved.
proof fn lemma_exprs(es: Seq<SynExpr>, locals: Seq<Seq<char>>, tmp: usize, base: int)
    ensures
        resolved_emit(exprs_code(es, locals, tmp, base)),
    decreases es,
{
    broadcast use group_resolved;

    lemma_empty();
    if es.len() > 0 {
        lemma_expr(es[0], locals, tmp, base);
        if let Ok((c, t1)) = expr_code(es[0], locals, tmp, base) {
            lemma_exprs(es.drop_first(), locals, t1, base + c.len());
        }
    }
}

/// The code of a slice bound is resolved.
proof fn lemma_slice_part(part: Option<Box<SynExpr>>, locals: Seq<Seq<char>>, tmp: usize, base: int)
    ensures
        resolved_emit(slice_part(part, locals, tmp, base)),
    decreases part,
{
    broadcast use group_resolved;

    lemma_empty();
    match part {
        Some(x) => lemma_expr(*x, locals, tmp, base),
        None => {},
    }
}

/// The code of the entries of a dict display is resolved.
proof fn lemma_dict(items: Seq<DictItem>, locals: Seq<Seq<char>>, tmp: usize, base: int)
    ensures
        resolved_emit(dict_code(items, locals, tmp, base)),
    decreases items,
{
    broadcast use group_resolved;

    lemma_empty();
    if items.len() > 0 {
        if let Some(k) = items[0].key {
            lemma_expr(k, locals, tmp, base);
            if let Ok((ck, t1)) = expr_code(k, locals, tmp, base) {
                lemma_expr(items[0].value, locals, t1, base + ck.len());
                if let Ok((cv, t2)) = expr_code(items[0].value, locals, t1, base + ck.len()) {
                    lemma_dict(items.drop_first(), locals, t2, base + ck.len() + cv.len());
                }
            }
        }
    }
}

/// The code of the later operands of a short-circuit operator is resolved.
proof fn lemma_bool_chain(
    op: crate::ast::BoolOp,
    rest: Seq<SynExpr>,
    locals: Seq<Seq<char>>,
    tmp: usize,
    base: int,
)
    ensures
        resolved_emit(bool_chain(op, rest, locals, tmp, base)),
    decreases rest,
{
    broadcast use group_resolved;

    lemma_empty();
    if rest.len() > 0 {
        lemma_expr(rest[0], locals, tmp, base + 1);
        if let Ok((cv, t1)) = expr_code(rest[0], locals, tmp, base + 1) {
            lemma_bool_chain(op, rest.drop_first(), locals, t1, base + 1 + cv.len());
        }
    }
}

/// The code of the first part of an f-string is resolved.
proof fn lemma_fstring_first(part: SynExpr, locals: Seq<Seq<char>>, tmp: usize, base: int)
    ensures
        resolved_emit(fstring_first(part, locals, tmp, base)),
    decreases part,
{
    broadcast use group_resolved;

    lemma_empty();
    match part {
        SynExpr::FormattedValue(v, _) => lemma_expr(*v, locals, tmp, base),
        _ => {},
    }
}

/// The code of the later parts of an f-string is resolved.
proof fn lemma_fstring_rest(parts: Seq<SynExpr>, locals: Seq<Seq<char>>, tmp: usize, base: int)
    ensures
        resolved_emit(fstring_rest(parts, locals, tmp, base)),
    decreases parts,
{
    broadcast use group_resolved;

    lemma_empty();
    if parts.len() > 0 {
        match parts[0] {
            SynExpr::FormattedValue(v, _) => {
                lemma_expr(*v, locals, tmp, base);
                if let Ok((cv, t1)) = expr_code(*v, locals, tmp, base) {
                    assert(resolved_code(seq![Instr::Str, Instr::Add])) by {
                        reveal(resolved_code);
                    }
                    lemma_fstring_rest(parts.drop_first(), locals, t1, base + (cv + seq![Instr::Str, Instr::Add]).len());
                }
            },
            SynExpr::Constant(crate::ast::Constant::Str(st)) => {
                assert(resolved_code(seq![Instr::PushString(st@), Instr::Add])) by {
                    reveal(resolved_code);
                }
                if st@.len() > 0 {
                    lemma_fstring_rest(parts.drop_first(), locals, tmp, base + seq![Instr::PushString(st@), Instr::Add].len());
                } else {
                    lemma_fstring_rest(parts.drop_first(), locals, tmp, base + Seq::<Instr>::empty().len());
                }
            },
            _ => {
                lemma_fstring_rest(parts.drop_first(), locals, tmp, base + Seq::<Instr>::empty().len());
            },
        }
    }
}

/// The template of the filters of a comprehension is resolved.
proof fn lemma_filters(ifs: Seq<SynExpr>, locals: Seq<Seq<char>>, tmp: usize, base: int)
    ensures
        resolved_emit_t(filters_code(ifs, locals, tmp, base)),
    decreases ifs,
{
    broadcast use group_resolved;

    lemma_empty();
    if ifs.len() > 0 {
        lemma_expr(ifs[0], locals, tmp, base);
        if let Ok((cf, t1)) = expr_code(ifs[0], locals, tmp, base) {
            lemma_filters(ifs.drop_first(), locals, t1, base + cf.len() + 1);
        }
    }
}

/// The stores of an unpacking assignment are resolved.
proof fn lemma_unpack(elts: Seq<SynExpr>, locals: Seq<Seq<char>>)
    ensures
        unpack_stores(elts, locals) matches Ok(c) ==> resolved_code(c),
    decreases elts.len(),
{
    broadcast use group_resolved;

    lemma_empty();
    if elts.len() > 0 {
        lemma_unpack(elts.drop_last(), locals);
        if let SynExpr::Name(n) = elts.last() {
            assert(resolved_code(seq![store_name(locals, n@), Instr::Pop])) by {
                reveal(resolved_code);
            }
        }
    }
}

/// The code of one target of an assignment is resolved.
proof fn lemma_target(target: SynExpr, value: SynExpr, locals: Seq<Seq<char>>, tmp: usize, base: int)
    ensures
        resolved_emit(target_code(target, value, locals, tmp, base)),
{
    broadcast use group_resolved;

    lemma_empty();
    lemma_expr(value, locals, tmp, base);
    match target {
        SynExpr::Tuple(elts) => {
            lemma_unpack(elts@, locals);
            assert(resolved_code(seq![Instr::UnpackSequence(elts@.len() as usize)])) by {
                reveal(resolved_code);
            }
        },
        SynExpr::Name(n) => {
            assert(resolved_code(seq![store_name(locals, n@), Instr::Pop])) by {
                reveal(resolved_code);
            }
        },
        SynExpr::Subscript(obj, idx) => {
            if let Ok((cv, t1)) = expr_code(value, locals, tmp, base) {
                lemma_expr(*obj, locals, t1, base + cv.len());
                if let Ok((co, t2)) = expr_code(*obj, locals, t1, base + cv.len()) {
                    lemma_expr(*idx, locals, t2, base + cv.len() + co.len());
                }
            }
            assert(resolved_code(seq![Instr::SetItem, Instr::Pop])) by {
                reveal(resolved_code);
            }
        },
        _ => {},
    }
}

/// The code of the targets of an assignment is resolved.
proof fn lemma_assign(targets: Seq<SynExpr>, value: SynExpr, locals: Seq<Seq<char>>, tmp: usize, base: int)
    ensures
        resolved_emit(assign_code(targets, value, locals, tmp, base)),
    decreases targets.len(),
{
    broadcast use group_resolved;

    lemma_empty();
    if targets.len() > 0 {
        lemma_target(targets[0], value, locals, tmp, base);
        if let Ok((c, t1)) = target_code(targets[0], value, locals, tmp, base) {
            lemma_assign(targets.drop_first(), value, locals, t1, base + c.len());
        }
    }
}

/// The code of `import` is resolved.
proof fn lemma_import(names: Seq<Alias>)
    ensures
        resolved_code(import_code(names)),
    decreases names.len(),
{
    broadcast use group_resolved;

    lemma_empty();
    if names.len() > 0 {
        lemma_import(names.drop_first());
        let a = names[0];
        let bound = match a.asname {
            Some(x) => x@,
            None => a.name@,
        };
        assert(resolved_code(seq![Instr::Import(a.name@), Instr::SetGlobal(bound), Instr::Pop])) by {
            reveal(resolved_code);
        }
    }
}

/// The code of `from ... import` is resolved.
proof fn lemma_import_from(names: Seq<Alias>)
    ensures
        resolved_code(import_from_code(names)),
    decreases names.len(),
{
    broadcast use group_resolved;

    lemma_empty();
    if names.len() > 0 {
        lemma_import_from(names.drop_first());
        let a = names[0];
        let bound = match a.asname {
            Some(x) => x@,
            None => a.name@,
        };
        assert(resolved_code(
            seq![Instr::Dup, Instr::GetAttr(a.name@), Instr::SetGlobal(bound), Instr::Pop],
        )) by {
            reveal(resolved_code);
        }
    }
}

/// The code that binds a caught exception is resolved.
proof fn lemma_bind(name: Option<String>, locals: Seq<Seq<char>>)
    ensures
        resolved_code(bind_code(name, locals)),
{
    reveal(resolved_code);
}

/// The template of a statement is resolved.
#[verifier::spinoff_prover]
#[verifier::rlimit(100)]
proof fn lemma_stmt(s: SynStmt, locals: Seq<Seq<char>>, lp: Option<usize>, tmp: usize, base: int)
    ensures
        resolved_emit_t(stmt_code(s, locals, lp, tmp, base)),
    decreases s, 3int,
{
    broadcast use group_resolved;

    lemma_empty();
    match s {
        SynStmt::Assign(targets, value) => lemma_assign(targets@, value, locals, tmp, base),
        SynStmt::FunctionDef(name, params, body) => lemma_function(name@, params@, body@, false),
        SynStmt::AsyncFunctionDef(name, params, body) => lemma_function(name@, params@, body@, true),
        SynStmt::Return(v) => {
            match v {
                Some(x) => lemma_expr(x, locals, tmp, base),
                None => {
                    assert(resolved_code(seq![Instr::PushNone, Instr::Return])) by {
                        reveal(resolved_code);
                    }
                },
            }
        },
        SynStmt::If(test, body, orelse) => {
            lemma_expr(test, locals, tmp, base);
            if let Ok((ct, t1)) = expr_code(test, locals, tmp, base) {
                lemma_stmts(body@, locals, lp, t1, base + ct.len() + 1);
                if let Ok((bt, t2)) = stmts_code(body@, locals, lp, t1, base + ct.len() + 1) {
                    let has_else = orelse@.len() > 0;
                    let else_start = base + ct.len() + 1 + bt.len() + if has_else {
                        1int
                    } else {
                        0int
                    };
                    lemma_stmts(orelse@, locals, lp, t2, else_start);
                }
            }
        },
        SynStmt::While(test, body) => {
            lemma_expr(test, locals, tmp, base);
            if let Ok((ct, t1)) = expr_code(test, locals, tmp, base) {
                lemma_stmts(body@, locals, Some(base as usize), t1, base + ct.len() + 1);
            }
        },
        SynStmt::For(target, iter, body) => {
            lemma_expr(iter, locals, tmp, base);
            if let Ok((ci, t1)) = expr_code(iter, locals, tmp, base) {
                if let SynExpr::Name(v) = target {
                    let loop_start = base + ci.len() + 1;
                    lemma_stmts(body@, locals, Some(loop_start as usize), t1, loop_start + 3);
                    if let Ok((bt, t2)) = stmts_code(
                        body@,
                        locals,
                        Some(loop_start as usize),
                        t1,
                        loop_start + 3,
                    ) {
                        let end = loop_start + 3 + bt.len() + 1;
                        assert(resolved_template(
                            seq![
                                Slot::Op(Instr::GetIter),
                                Slot::Op(Instr::ForIter(end as usize)),
                                Slot::Op(store_name(locals, v@)),
                                Slot::Op(Instr::Pop),
                            ],
                        )) by {
                            reveal(resolved_template);
                        }
                        assert(resolved_template(
                            seq![Slot::Op(Instr::Jump(loop_start as usize)), Slot::Op(Instr::Pop)],
                        )) by {
                            reveal(resolved_template);
                        }
                    }
                }
            }
        },
        SynStmt::Expr(e) => lemma_expr(e, locals, tmp, base),
        SynStmt::Raise(exc) => {
            if let Some(x) = exc {
                lemma_expr(x, locals, tmp, base);
                if let SynExpr::Call(f, args) = x {
                    if args@.len() > 0 {
                        lemma_expr(args@[0], locals, tmp, base);
                    }
                    if let SynExpr::Name(n) = *f {
                        if let Some(et) = exception_named(n@) {
                            assert(resolved_code(seq![Instr::MakeException(et), Instr::Raise])) by {
                                reveal(resolved_code);
                            }
                        }
                    }
                }
            }
        },
        SynStmt::Try(_, _, finalbody) => {
            if finalbody@.len() > 0 {
                lemma_try_finally(s, locals, lp, tmp, base);
            } else {
                lemma_try_except(s, locals, lp, tmp, base);
            }
        },
        SynStmt::Import(names) => lemma_import(names@),
        SynStmt::ImportFrom(_, names) => lemma_import_from(names@),
        SynStmt::AugAssign(target, op, value) => {
            if let SynExpr::Name(n) = target {
                lemma_expr(value, locals, tmp, base + 1);
                if let Some(i) = binop_instr(op) {
                    assert(resolved_code(seq![i, store_name(locals, n@), Instr::Pop])) by {
                        reveal(resolved_code);
                    }
                }
            }
        },
        _ => {},
    }
}

/// The template of statements in order is resolved.
#[verifier::spinoff_prover]
#[verifier::rlimit(100)]
proof fn lemma_stmts(ss: Seq<SynStmt>, locals: Seq<Seq<char>>, lp: Option<usize>, tmp: usize, base: int)
    ensures
        resolved_emit_t(stmts_code(ss, locals, lp, tmp, base)),
    decreases ss, 0int,
{
    broadcast use group_resolved;

    lemma_empty();
    if ss.len() > 0 {
        lemma_stmt(ss[0], locals, lp, tmp, base);
        if let Ok((t, t1)) = stmt_code(ss[0], locals, lp, tmp, base) {
            lemma_stmts(ss.drop_first(), locals, lp, t1, base + t.len());
        }
    }
}

/// The template of one `except` clause is resolved.
#[verifier::spinoff_prover]
#[verifier::rlimit(100)]
proof fn lemma_handler(h: ExceptHandler, locals: Seq<Seq<char>>, lp: Option<usize>, tmp: usize, base: int)
    ensures
        resolved_emit_t(handler_code(h, locals, lp, tmp, base)),
    decreases h, 1int,
{
    broadcast use group_resolved;

    lemma_empty();
    let bind = bind_code(h.name, locals);
    lemma_bind(h.name, locals);
    match h.type_ {
        Some(te) => {
            if let Ok(et) = handler_type(te) {
                assert(resolved_code(
                    seq![Instr::Dup, Instr::PushInt(et.code() as i32), Instr::MatchException],
                )) by {
                    reveal(resolved_code);
                }
                lemma_stmts(h.body@, locals, lp, tmp, base + 5 + bind.len());
                if let Ok((bt, _)) = stmts_code(h.body@, locals, lp, tmp, base + 5 + bind.len()) {
                    let next = base + 5 + bind.len() + bt.len() + 1;
                    assert(resolved_template(
                        seq![Slot::Op(Instr::JumpIfFalse(next as usize)), Slot::Op(Instr::Pop)],
                    )) by {
                        reveal(resolved_template);
                    }
                    assert(resolved_template(
                        seq![Slot::Hole(HoleKind::Exit), Slot::Op(Instr::Pop)],
                    )) by {
                        reveal(resolved_template);
                    }
                }
            }
        },
        None => {
            lemma_stmts(h.body@, locals, lp, tmp, base + bind.len());
        },
    }
}

/// The template of the `except` clauses of a `try` statement is resolved.
proof fn lemma_handlers(
    hs: Seq<ExceptHandler>,
    locals: Seq<Seq<char>>,
    lp: Option<usize>,
    tmp: usize,
    base: int,
)
    ensures
        resolved_emit_t(handlers_code(hs, locals, lp, tmp, base)),
    decreases hs, 0int,
{
    broadcast use group_resolved;

    lemma_empty();
    if hs.len() > 0 {
        lemma_handler(hs[0], locals, lp, tmp, base);
        if let Ok((t, t1)) = handler_code(hs[0], locals, lp, tmp, base) {
            lemma_handlers(hs.drop_first(), locals, lp, t1, base + t.len());
        }
    }
}

/// The template of a `try` statement without `finally` is resolved.
#[verifier::spinoff_prover]
#[verifier::rlimit(100)]
proof fn lemma_try_except(s: SynStmt, locals: Seq<Seq<char>>, lp: Option<usize>, tmp: usize, base: int)
    ensures
        resolved_emit_t(try_except_code(s, locals, lp, tmp, base)),
    decreases s, 1int,
{
    broadcast use group_resolved;

    lemma_empty();
    if let SynStmt::Try(body, handlers, _) = s {
        lemma_stmts(body@, locals, lp, tmp, base + 1);
        if let Ok((bt, t1)) = stmts_code(body@, locals, lp, tmp, base + 1) {
            let except_start = base + 1 + bt.len() + 2;
            lemma_handlers(handlers@, locals, lp, t1, except_start);
            assert(resolved_template(seq![Slot::Op(Instr::PopTry), Slot::Hole(HoleKind::Exit)])) by {
                reveal(resolved_template);
            }
        }
    }
}

/// The template of a `try` statement with `finally` is resolved.
#[verifier::spinoff_prover]
#[verifier::rlimit(100)]
proof fn lemma_try_finally(s: SynStmt, locals: Seq<Seq<char>>, lp: Option<usize>, tmp: usize, base: int)
    ensures
        resolved_emit_t(try_finally_code(s, locals, lp, tmp, base)),
    decreases s, 2int,
{
    broadcast use group_resolved;

    lemma_empty();
    if let SynStmt::Try(body, handlers, finalbody) = s {
        let inner = if handlers@.len() > 0 {
            lemma_try_except(s, locals, lp, tmp, base + 1);
            try_except_code(s, locals, lp, tmp, base + 1)
        } else {
            lemma_stmts(body@, locals, lp, tmp, base + 1);
            stmts_code(body@, locals, lp, tmp, base + 1)
        };
        if let Ok((it, t1)) = inner {
            let finally_start = base + 1 + it.len() + 3;
            lemma_stmts(finalbody@, locals, lp, t1, finally_start);
            assert(resolved_template(
                seq![
                    Slot::Op(Instr::PopFinally),
                    Slot::Op(Instr::PushNone),
                    Slot::Op(Instr::Jump(finally_start as usize)),
                ],
            )) by {
                reveal(resolved_template);
            }
        }
    }
}

/// The code of a function definition is resolved.
#[verifier::spinoff_prover]
#[verifier::rlimit(100)]
proof fn lemma_function(name: Seq<char>, params: Seq<String>, body: Seq<SynStmt>, is_async: bool)
    ensures
        function_code(name, params, body, is_async) matches Ok(c) ==> resolved_code(c),
    decreases body, 1int,
{
    broadcast use group_resolved;

    lemma_empty();
    lemma_stmts(body, views(params), None, 0, 0);
    assert(resolved_code(seq![Instr::PushNone, Instr::Return])) by {
        reveal(resolved_code);
    }
}

/// Every program the compiler accepts compiles to code without a `Break`
/// or `Continue` instruction: each `break` and `continue` becomes a jump.
pub proof fn lemma_compiled_code_has_no_break_or_continue(p: Program)
    ensures
        program_code(p) matches Ok(code) ==> forall|i: int|
            0 <= i < code.len() ==> !(code[i] is Break) && !(code[i] is Continue),
{
    broadcast use group_resolved;

    lemma_empty();
    match p {
        Program::Module(ss) => {
            if ss@.len() > 0 {
                let init = ss@.drop_last();
                lemma_stmts(init, Seq::empty(), None, 0, 0);
                if let Ok((t, n)) = stmts_code(init, Seq::empty(), None, 0, 0) {
                    match ss@.last() {
                        SynStmt::Expr(e) => lemma_expr(e, Seq::empty(), n, t.len() as int),
                        last => lemma_stmt(last, Seq::empty(), None, n, t.len() as int),
                    }
                }
            }
        },
        Program::Expression(e) => lemma_expr(e, Seq::empty(), 0, 0),
    }
    if let Ok(code) = program_code(p) {
        assert(resolved_code(code));
        reveal(resolved_code);
    }
}

} // verus!
