//! Compiled code never jumps out of the code it belongs to: every jump of a
//! block lands inside the block or just past its end, and the body of each
//! function, which runs in a frame of its own, is such a block in its own
//! positions.
use vstd::prelude::*;
use crate::ast::{Alias, BoolOp, Constant, DictItem, ExceptHandler, SynExpr, Program, SynStmt};
use crate::bytecode::Instr;
use crate::codegen::{fill, fill_slot, hole_instr, lift, placed, slot_instr, HoleKind, Slot};
use crate::compiler::{
    assign_code, bind_code, binop_instr, bool_chain, dict_code, exception_named, expr_code,
    exprs_code, filters_code, fstring_first, fstring_rest, function_body, function_code,
    handler_code, handler_type, handlers_code, import_code, import_from_code, listcomp_name,
    next_tmp, program_code, slice_part, stmt_code, stmts_code, store_name, target_code,
    try_except_code, try_finally_code, unpack_stores, Emit, EmitT,
};
use crate::strings::views;

verus! {

/// Where an instruction may jump to, if it is a jump.
pub open spec fn jump_target(x: Instr) -> Option<usize> {
    match x {
        Instr::Jump(t) => Some(t),
        Instr::JumpIfFalse(t) => Some(t),
        Instr::JumpIfFalseOrPop(t) => Some(t),
        Instr::JumpIfTrueOrPop(t) => Some(t),
        Instr::ForIter(t) => Some(t),
        Instr::SetupTry(t) => Some(t),
        Instr::SetupFinally(t) => Some(t),
        _ => None,
    }
}

/// From place `i` on, every jump of `t` lands in `lo..=hi`, and every
/// function body in it is a block of its own, without holes, whose jumps
/// land inside it.
pub open spec fn frame_ok(t: Seq<Slot>, i: int, lo: int, hi: int) -> bool
    decreases t.len(), t.len() - i,
{
    if i < 0 || i >= t.len() {
        true
    } else {
        match t[i] {
            Slot::Hole(_) => frame_ok(t, i + 1, lo, hi),
            Slot::Op(x) => match x {
                Instr::MakeFunction { code_len, .. } => {
                    let end = i + 1 + code_len;
                    &&& end <= t.len()
                    &&& forall|j: int| i + 1 <= j < end ==> #[trigger] t[j] is Op
                    &&& frame_ok(t.subrange(i + 1, end), 0, 0, code_len as int)
                    &&& frame_ok(t, end, lo, hi)
                },
                _ => (match jump_target(x) {
                    Some(g) => lo <= g <= hi,
                    None => true,
                }) && frame_ok(t, i + 1, lo, hi),
            },
        }
    }
}

/// A template whose jumps land in `lo..=hi`.
#[verifier::opaque]
pub open spec fn template_ok(t: Seq<Slot>, lo: int, hi: int) -> bool {
    frame_ok(t, 0, lo, hi)
}

/// Code whose jumps land in `lo..=hi`.
#[verifier::opaque]
pub open spec fn code_ok(c: Seq<Instr>, lo: int, hi: int) -> bool {
    frame_ok(lift(c), 0, lo, hi)
}

/// A single instruction that is not a function and jumps, if at all, into
/// `lo..=hi`.
pub open spec fn instr_ok(x: Instr, lo: int, hi: int) -> bool {
    &&& !(x is MakeFunction)
    &&& jump_target(x) matches Some(g) ==> lo <= g <= hi
}

/// A single place that is a hole or an instruction as above.
pub open spec fn slot_ok(s: Slot, lo: int, hi: int) -> bool {
    match s {
        Slot::Op(x) => instr_ok(x, lo, hi),
        Slot::Hole(_) => true,
    }
}

/// Scanning `a + b` from a place in `b` is scanning `b`.
proof fn lemma_shift(a: Seq<Slot>, b: Seq<Slot>, j: int, lo: int, hi: int)
    requires
        0 <= j <= b.len(),
    ensures
        frame_ok(a + b, a.len() + j, lo, hi) == frame_ok(b, j, lo, hi),
    decreases b.len() - j,
{
    let ab = a + b;
    let i = a.len() + j;
    if j < b.len() {
        assert(ab[i] == b[j]);
        match b[j] {
            Slot::Hole(_) => lemma_shift(a, b, j + 1, lo, hi),
            Slot::Op(x) => match x {
                Instr::MakeFunction { code_len, .. } => {
                    let end = j + 1 + code_len;
                    if end <= b.len() {
                        assert(ab.subrange(i + 1, i + 1 + code_len) =~= b.subrange(j + 1, end));
                        lemma_shift(a, b, end, lo, hi);
                        assert((forall|k: int| i + 1 <= k < i + 1 + code_len ==> #[trigger] ab[k] is Op)
                            == (forall|k: int| j + 1 <= k < end ==> #[trigger] b[k] is Op)) by {
                            if forall|k: int| i + 1 <= k < i + 1 + code_len ==> #[trigger] ab[k] is Op {
                                assert forall|k: int| j + 1 <= k < end implies #[trigger] b[k] is Op by {
                                    assert(ab[a.len() + k] == b[k]);
                                }
                            }
                            if forall|k: int| j + 1 <= k < end ==> #[trigger] b[k] is Op {
                                assert forall|k: int| i + 1 <= k < i + 1 + code_len implies #[trigger] ab[k] is Op by {
                                    assert(ab[k] == b[k - a.len()]);
                                }
                            }
                        }
                    }
                },
                _ => lemma_shift(a, b, j + 1, lo, hi),
            },
        }
    }
}

/// Scanning `a + b` from a place in `a` that scans cleanly to the end of
/// `a`, then on through `b`.
proof fn lemma_concat_from(a: Seq<Slot>, b: Seq<Slot>, i: int, lo: int, hi: int)
    requires
        0 <= i <= a.len(),
        frame_ok(a, i, lo, hi),
        frame_ok(b, 0, lo, hi),
    ensures
        frame_ok(a + b, i, lo, hi),
    decreases a.len() - i,
{
    let ab = a + b;
    if i == a.len() {
        lemma_shift(a, b, 0, lo, hi);
    } else {
        assert(ab[i] == a[i]);
        match a[i] {
            Slot::Hole(_) => lemma_concat_from(a, b, i + 1, lo, hi),
            Slot::Op(x) => match x {
                Instr::MakeFunction { code_len, .. } => {
                    let end = i + 1 + code_len;
                    assert(ab.subrange(i + 1, end) =~= a.subrange(i + 1, end));
                    assert forall|k: int| i + 1 <= k < end implies #[trigger] ab[k] is Op by {
                        assert(ab[k] == a[k]);
                    }
                    lemma_concat_from(a, b, end, lo, hi);
                },
                _ => lemma_concat_from(a, b, i + 1, lo, hi),
            },
        }
    }
}

/// Widening the range keeps a scan clean.
proof fn lemma_widen(t: Seq<Slot>, i: int, lo: int, hi: int, lo2: int, hi2: int)
    requires
        frame_ok(t, i, lo, hi),
        lo2 <= lo,
        hi <= hi2,
    ensures
        frame_ok(t, i, lo2, hi2),
    decreases t.len() - i,
{
    if 0 <= i < t.len() {
        match t[i] {
            Slot::Hole(_) => lemma_widen(t, i + 1, lo, hi, lo2, hi2),
            Slot::Op(x) => match x {
                Instr::MakeFunction { code_len, .. } => lemma_widen(t, i + 1 + code_len, lo, hi, lo2, hi2),
                _ => lemma_widen(t, i + 1, lo, hi, lo2, hi2),
            },
        }
    }
}

/// Templates side by side.
pub broadcast proof fn lemma_template_concat(a: Seq<Slot>, b: Seq<Slot>, lo: int, hi: int)
    requires
        template_ok(a, lo, hi),
        template_ok(b, lo, hi),
    ensures
        #[trigger] template_ok(a + b, lo, hi),
{
    reveal(template_ok);
    lemma_concat_from(a, b, 0, lo, hi);
}

/// A template with one place added.
pub broadcast proof fn lemma_template_push(a: Seq<Slot>, s: Slot, lo: int, hi: int)
    requires
        template_ok(a, lo, hi),
        slot_ok(s, lo, hi),
    ensures
        #[trigger] template_ok(a.push(s), lo, hi),
{
    reveal(template_ok);
    let one = seq![s];
    assert(frame_ok(one, 1, lo, hi));
    assert(frame_ok(one, 0, lo, hi));
    lemma_concat_from(a, one, 0, lo, hi);
    assert(a + one =~= a.push(s));
}

/// Code as a template.
pub broadcast proof fn lemma_lift_ok(c: Seq<Instr>, lo: int, hi: int)
    requires
        code_ok(c, lo, hi),
    ensures
        #[trigger] template_ok(lift(c), lo, hi),
{
    reveal(template_ok);
    reveal(code_ok);
}

/// Code side by side.
pub broadcast proof fn lemma_code_concat(a: Seq<Instr>, b: Seq<Instr>, lo: int, hi: int)
    requires
        code_ok(a, lo, hi),
        code_ok(b, lo, hi),
    ensures
        #[trigger] code_ok(a + b, lo, hi),
{
    reveal(template_ok);
    reveal(code_ok);
    lemma_concat_from(lift(a), lift(b), 0, lo, hi);
    assert(lift(a + b) =~= lift(a) + lift(b));
}

/// Code with one instruction added.
pub broadcast proof fn lemma_code_push(a: Seq<Instr>, x: Instr, lo: int, hi: int)
    requires
        code_ok(a, lo, hi),
        instr_ok(x, lo, hi),
    ensures
        #[trigger] code_ok(a.push(x), lo, hi),
{
    reveal(code_ok);
    let one = seq![Slot::Op(x)];
    assert(frame_ok(one, 1, lo, hi));
    assert(frame_ok(one, 0, lo, hi));
    lemma_concat_from(lift(a), one, 0, lo, hi);
    assert(lift(a.push(x)) =~= lift(a) + one);
}

/// Filling holes with a jump into the range.
proof fn lemma_fill_from(t: Seq<Slot>, i: int, k: HoleKind, target: usize, lo: int, hi: int)
    requires
        frame_ok(t, i, lo, hi),
        lo <= target <= hi,
    ensures
        frame_ok(fill(t, k, target), i, lo, hi),
    decreases t.len() - i,
{
    let f = fill(t, k, target);
    if 0 <= i < t.len() {
        assert(f[i] == fill_slot(t[i], k, target));
        match t[i] {
            Slot::Hole(_) => lemma_fill_from(t, i + 1, k, target, lo, hi),
            Slot::Op(x) => match x {
                Instr::MakeFunction { code_len, .. } => {
                    let end = i + 1 + code_len;
                    assert forall|j: int| i + 1 <= j < end implies #[trigger] f[j] is Op by {
                        assert(t[j] is Op);
                        assert(f[j] == fill_slot(t[j], k, target));
                    }
                    assert(f.subrange(i + 1, end) =~= t.subrange(i + 1, end)) by {
                        assert forall|j: int| 0 <= j < code_len implies #[trigger] f.subrange(i + 1, end)[j]
                            == t.subrange(i + 1, end)[j] by {
                            assert(t[i + 1 + j] is Op);
                            assert(f[i + 1 + j] == fill_slot(t[i + 1 + j], k, target));
                        }
                    }
                    lemma_fill_from(t, end, k, target, lo, hi);
                },
                _ => lemma_fill_from(t, i + 1, k, target, lo, hi),
            },
        }
    }
}

/// Filling holes with a jump into the range.
pub broadcast proof fn lemma_fill_ok(t: Seq<Slot>, k: HoleKind, target: usize, lo: int, hi: int)
    requires
        template_ok(t, lo, hi),
        lo <= target <= hi,
    ensures
        #[trigger] template_ok(fill(t, k, target), lo, hi),
{
    reveal(template_ok);
    lemma_fill_from(t, 0, k, target, lo, hi);
}

/// Emitting a template: its holes become jumps to 0.
proof fn lemma_placed_from(t: Seq<Slot>, i: int, lo: int, hi: int)
    requires
        frame_ok(t, i, lo, hi),
        lo <= 0 <= hi,
    ensures
        frame_ok(lift(placed(t)), i, lo, hi),
    decreases t.len() - i,
{
    let f = lift(placed(t));
    if 0 <= i < t.len() {
        assert(f[i] == Slot::Op(slot_instr(t[i])));
        match t[i] {
            Slot::Hole(k) => {
                assert(jump_target(hole_instr(k, 0)) == Some(0usize));
                lemma_placed_from(t, i + 1, lo, hi);
            },
            Slot::Op(x) => match x {
                Instr::MakeFunction { code_len, .. } => {
                    let end = i + 1 + code_len;
                    assert forall|j: int| i + 1 <= j < end implies #[trigger] f[j] is Op by {
                        assert(f[j] == Slot::Op(slot_instr(t[j])));
                    }
                    assert(f.subrange(i + 1, end) =~= t.subrange(i + 1, end)) by {
                        assert forall|j: int| 0 <= j < code_len implies #[trigger] f.subrange(i + 1, end)[j]
                            == t.subrange(i + 1, end)[j] by {
                            assert(t[i + 1 + j] is Op);
                            assert(f[i + 1 + j] == Slot::Op(slot_instr(t[i + 1 + j])));
                        }
                    }
                    lemma_placed_from(t, end, lo, hi);
                },
                _ => lemma_placed_from(t, i + 1, lo, hi),
            },
        }
    }
}

/// Emitting a template whose range holds 0.
pub broadcast proof fn lemma_placed_ok(t: Seq<Slot>, lo: int, hi: int)
    requires
        template_ok(t, lo, hi),
        lo <= 0 <= hi,
    ensures
        #[trigger] code_ok(placed(t), lo, hi),
{
    reveal(template_ok);
    reveal(code_ok);
    lemma_placed_from(t, 0, lo, hi);
}

/// Empty code and templates.
pub proof fn lemma_empty_ok()
    ensures
        forall|lo: int, hi: int| #[trigger] code_ok(Seq::<Instr>::empty(), lo, hi),
        forall|lo: int, hi: int| #[trigger] template_ok(Seq::<Slot>::empty(), lo, hi),
{
    reveal(template_ok);
    reveal(code_ok);
}

/// Widening the range of code.
pub proof fn lemma_code_widen(c: Seq<Instr>, lo: int, hi: int, lo2: int, hi2: int)
    requires
        code_ok(c, lo, hi),
        lo2 <= lo,
        hi <= hi2,
    ensures
        code_ok(c, lo2, hi2),
{
    reveal(code_ok);
    lemma_widen(lift(c), 0, lo, hi, lo2, hi2);
}

/// Widening the range of a template.
pub proof fn lemma_template_widen(t: Seq<Slot>, lo: int, hi: int, lo2: int, hi2: int)
    requires
        template_ok(t, lo, hi),
        lo2 <= lo,
        hi <= hi2,
    ensures
        template_ok(t, lo2, hi2),
{
    reveal(template_ok);
    lemma_widen(t, 0, lo, hi, lo2, hi2);
}

/// A template without holes.
#[verifier::opaque]
pub open spec fn all_ops(t: Seq<Slot>) -> bool {
    forall|i: int| 0 <= i < t.len() ==> #[trigger] t[i] is Op
}

/// A template whose only holes skip a comprehension's element.
pub open spec fn only_skip_holes(t: Seq<Slot>) -> bool {
    forall|i: int| 0 <= i < t.len() ==> #[trigger] t[i] is Op || t[i] == Slot::Hole(HoleKind::Skip)
}

/// Filling the skip holes of such a template leaves no hole.
proof fn lemma_fill_skip(t: Seq<Slot>, target: usize)
    requires
        only_skip_holes(t),
    ensures
        all_ops(fill(t, HoleKind::Skip, target)),
{
    reveal(all_ops);
    assert forall|i: int| 0 <= i < fill(t, HoleKind::Skip, target).len() implies #[trigger] fill(
        t,
        HoleKind::Skip,
        target,
    )[i] is Op by {
        assert(fill(t, HoleKind::Skip, target)[i] == fill_slot(t[i], HoleKind::Skip, target));
        assert(t[i] is Op || t[i] == Slot::Hole(HoleKind::Skip));
    }
}

/// Emitting a template without holes.
proof fn lemma_placed_full_from(t: Seq<Slot>, i: int, lo: int, hi: int)
    requires
        frame_ok(t, i, lo, hi),
        forall|j: int| 0 <= j < t.len() ==> #[trigger] t[j] is Op,
    ensures
        frame_ok(lift(placed(t)), i, lo, hi),
    decreases t.len() - i,
{
    let f = lift(placed(t));
    assert(f =~= t) by {
        assert forall|j: int| 0 <= j < t.len() implies #[trigger] f[j] == t[j] by {
            assert(t[j] is Op);
            assert(f[j] == Slot::Op(slot_instr(t[j])));
        }
    }
}

/// Emitting a template without holes, in any range.
pub broadcast proof fn lemma_placed_full(t: Seq<Slot>, lo: int, hi: int)
    requires
        template_ok(t, lo, hi),
        all_ops(t),
    ensures
        #[trigger] code_ok(placed(t), lo, hi),
{
    reveal(template_ok);
    reveal(code_ok);
    reveal(all_ops);
    lemma_placed_full_from(t, 0, lo, hi);
}

pub broadcast group group_frames {
    lemma_template_concat,
    lemma_template_push,
    lemma_lift_ok,
    lemma_code_concat,
    lemma_code_push,
    lemma_fill_ok,
    lemma_placed_ok,
    lemma_placed_full,
}

/// A range `lo..=hi` of positions that holds `from..=to`.
pub open spec fn holds(lo: int, hi: int, from: int, to: int) -> bool {
    0 <= lo <= from && to <= hi <= usize::MAX
}

/// Successful code laid out from `base` jumps into any range that holds it.
pub open spec fn emit_ok(r: Emit, base: int) -> bool {
    r matches Ok((c, _)) ==> forall|lo: int, hi: int|
        holds(lo, hi, base, base + c.len()) ==> #[trigger] code_ok(c, lo, hi)
}

/// A successful template laid out from `base`, in a loop that starts at
/// `lp`, jumps into any range that holds it and the start of the loop.
pub open spec fn emit_t_ok(r: EmitT, base: int, lp: Option<usize>) -> bool {
    r matches Ok((t, _)) ==> forall|lo: int, hi: int|
        holds(lo, hi, base, base + t.len()) && (lp matches Some(p) ==> lo <= p <= hi)
            ==> #[trigger] template_ok(t, lo, hi)
}

/// The code of an expression.
#[verifier::spinoff_prover]
#[verifier::rlimit(100)]
proof fn lemma_expr(e: SynExpr, locals: Seq<Seq<char>>, tmp: usize, base: int)
    ensures
        emit_ok(expr_code(e, locals, tmp, base), base),
    decreases e,
{
    broadcast use group_frames;

    lemma_empty_ok();
    match e {
        SynExpr::BinOp(l, _, r) => {
            lemma_expr(*l, locals, tmp, base);
            if let Ok((cl, t1)) = expr_code(*l, locals, tmp, base) {
                lemma_expr(*r, locals, t1, base + cl.len());
            }
            assert(emit_ok(expr_code(e, locals, tmp, base), base));
        },
        SynExpr::Compare(l, _, rights) => {
            lemma_expr(*l, locals, tmp, base);
            if rights@.len() > 0 {
                if let Ok((cl, t1)) = expr_code(*l, locals, tmp, base) {
                    lemma_expr(rights@[0], locals, t1, base + cl.len());
                }
            }
            assert(emit_ok(expr_code(e, locals, tmp, base), base));
        },
        SynExpr::Call(f, args) => {
            lemma_exprs(args@, locals, tmp, base);
            lemma_exprs(args@, locals, tmp, base + 1);
            if args@.len() > 0 {
                lemma_expr(args@[0], locals, tmp, base);
            }
            match *f {
                SynExpr::Attribute(obj, _) => {
                    lemma_expr(*obj, locals, tmp, base);
                    if let Ok((co, t1)) = expr_code(*obj, locals, tmp, base) {
                        lemma_exprs(args@, locals, t1, base + co.len());
                    }
                },
                _ => {},
            }
            lemma_expr(*f, locals, tmp, base);
            if let Ok((cf, t1)) = expr_code(*f, locals, tmp, base) {
                lemma_exprs(args@, locals, t1, base + cf.len());
            }
            assert(emit_ok(expr_code(e, locals, tmp, base), base));
        },
        SynExpr::List(elts) => {
            lemma_exprs(elts@, locals, tmp, base);
            assert(emit_ok(expr_code(e, locals, tmp, base), base));
        },
        SynExpr::ListComp(elt, gens) => {
            if gens@.len() > 0 {
                let g = gens@[0];
                lemma_expr(g.iter, locals, next_tmp(tmp), base + 3);
                if let Ok((ci, t1)) = expr_code(g.iter, locals, next_tmp(tmp), base + 3) {
                    let fbase = base + 3 + ci.len() + 1 + 3;
                    lemma_filters(g.ifs@, locals, t1, fbase);
                    if let Ok((cf, t2)) = filters_code(g.ifs@, locals, t1, fbase) {
                        let ebase = fbase + cf.len() + 1;
                        lemma_expr(*elt, locals, t2, ebase);
                        if let Ok((ce, _)) = expr_code(*elt, locals, t2, ebase) {
                            let name = listcomp_name(tmp);
                            let loop_start = base + 3 + ci.len() + 1;
                            let after = ebase + ce.len() + 2;
                            let loop_end = after + 1;
                            lemma_fill_skip(cf, after as usize);
                            if let SynExpr::Name(v) = g.target {
                                assert(seq![Instr::BuildList(0), Instr::SetGlobal(name), Instr::Pop]
                                    =~= Seq::empty().push(Instr::BuildList(0)).push(
                                    Instr::SetGlobal(name),
                                ).push(Instr::Pop));
                                assert(seq![
                                    Instr::GetIter,
                                    Instr::ForIter(loop_end as usize),
                                    store_name(locals, v@),
                                    Instr::Pop,
                                ] =~= Seq::empty().push(Instr::GetIter).push(
                                    Instr::ForIter(loop_end as usize),
                                ).push(store_name(locals, v@)).push(Instr::Pop));
                                assert(seq![
                                    Instr::CallMethod("append"@, 1),
                                    Instr::Pop,
                                    Instr::Jump(loop_start as usize),
                                    Instr::GetGlobal(name),
                                ] =~= Seq::empty().push(Instr::CallMethod("append"@, 1)).push(
                                    Instr::Pop,
                                ).push(Instr::Jump(loop_start as usize)).push(
                                    Instr::GetGlobal(name),
                                ));
                            }
                        }
                    }
                }
            }
            assert(emit_ok(expr_code(e, locals, tmp, base), base));
        },
        SynExpr::Tuple(elts) => {
            lemma_exprs(elts@, locals, tmp, base);
            assert(emit_ok(expr_code(e, locals, tmp, base), base));
        },
        SynExpr::Dict(items) => {
            lemma_dict(items@, locals, tmp, base);
            assert(emit_ok(expr_code(e, locals, tmp, base), base));
        },
        SynExpr::Subscript(obj, idx) => {
            lemma_expr(*obj, locals, tmp, base);
            if let Ok((co, t1)) = expr_code(*obj, locals, tmp, base) {
                let b1 = base + co.len();
                match *idx {
                    SynExpr::Slice(lo, hi, st, _) => {
                        lemma_slice_part(lo, locals, t1, b1);
                        if let Ok((c1, t2)) = slice_part(lo, locals, t1, b1) {
                            lemma_slice_part(hi, locals, t2, b1 + c1.len());
                            if let Ok((c2, t3)) = slice_part(hi, locals, t2, b1 + c1.len()) {
                                lemma_slice_part(st, locals, t3, b1 + c1.len() + c2.len());
                            }
                        }
                        assert(seq![Instr::BuildSlice, Instr::GetItemSlice] =~= Seq::empty().push(
                            Instr::BuildSlice,
                        ).push(Instr::GetItemSlice));
                    },
                    _ => lemma_expr(*idx, locals, t1, b1),
                }
            }
            assert(emit_ok(expr_code(e, locals, tmp, base), base));
        },
        SynExpr::Attribute(obj, _) => {
            lemma_expr(*obj, locals, tmp, base);
            assert(emit_ok(expr_code(e, locals, tmp, base), base));
        },
        SynExpr::UnaryOp(_, x) => {
            lemma_expr(*x, locals, tmp, base);
            assert(emit_ok(expr_code(e, locals, tmp, base), base));
        },
        SynExpr::BoolOp(op, first, rest) => {
            lemma_expr(*first, locals, tmp, base);
            if let Ok((c0, t1)) = expr_code(*first, locals, tmp, base) {
                lemma_bool_chain(op, rest@, locals, t1, base + c0.len());
            }
            assert(emit_ok(expr_code(e, locals, tmp, base), base));
        },
        SynExpr::JoinedStr(parts) => {
            if parts@.len() > 0 {
                lemma_fstring_first(parts@[0], locals, tmp, base);
                if let Ok((c, t1)) = fstring_first(parts@[0], locals, tmp, base) {
                    lemma_fstring_rest(parts@.drop_first(), locals, t1, base + c.len());
                }
            }
            assert(emit_ok(expr_code(e, locals, tmp, base), base));
        },
        SynExpr::Await(x) => {
            lemma_expr(*x, locals, tmp, base);
            assert(emit_ok(expr_code(e, locals, tmp, base), base));
        },
        _ => {},
    }
}

/// The code of expressions in order.
proof fn lemma_exprs(es: Seq<SynExpr>, locals: Seq<Seq<char>>, tmp: usize, base: int)
    ensures
        emit_ok(exprs_code(es, locals, tmp, base), base),
    decreases es,
{
    broadcast use group_frames;

    lemma_empty_ok();
    if es.len() > 0 {
        lemma_expr(es[0], locals, tmp, base);
        if let Ok((c, t1)) = expr_code(es[0], locals, tmp, base) {
            lemma_exprs(es.drop_first(), locals, t1, base + c.len());
        }
    }
}

/// The code of a slice bound.
proof fn lemma_slice_part(part: Option<Box<SynExpr>>, locals: Seq<Seq<char>>, tmp: usize, base: int)
    ensures
        emit_ok(slice_part(part, locals, tmp, base), base),
    decreases part,
{
    broadcast use group_frames;

    lemma_empty_ok();
    match part {
        Some(x) => lemma_expr(*x, locals, tmp, base),
        None => {},
    }
}

/// The code of the entries of a dict display.
proof fn lemma_dict(items: Seq<DictItem>, locals: Seq<Seq<char>>, tmp: usize, base: int)
    ensures
        emit_ok(dict_code(items, locals, tmp, base), base),
    decreases items,
{
    broadcast use group_frames;

    lemma_empty_ok();
    if items.len() > 0 {
        if let Some(k) = items[0].key {
            lemma_expr(k, locals, tmp, base);
            if let Ok((ck, t1)) = expr_code(k, locals, tmp, base) {
                lemma_expr(items[0].value, locals, t1, base + ck.len());
                if let Ok((cv, t2)) = expr_code(items[0].value, locals, t1, base + ck.len()) {
                    lemma_dict(items.drop_first(), locals, t2, base + ck.len() + cv.len());
                }
            }
        }
    }
}

/// The code of the later operands of a short-circuit operator.
proof fn lemma_bool_chain(op: BoolOp, rest: Seq<SynExpr>, locals: Seq<Seq<char>>, tmp: usize, base: int)
    ensures
        emit_ok(bool_chain(op, rest, locals, tmp, base), base),
    decreases rest,
{
    broadcast use group_frames;

    lemma_empty_ok();
    if rest.len() > 0 {
        lemma_expr(rest[0], locals, tmp, base + 1);
        if let Ok((cv, t1)) = expr_code(rest[0], locals, tmp, base + 1) {
            lemma_bool_chain(op, rest.drop_first(), locals, t1, base + 1 + cv.len());
        }
    }
}

/// The code of the first part of an f-string.
proof fn lemma_fstring_first(part: SynExpr, locals: Seq<Seq<char>>, tmp: usize, base: int)
    ensures
        emit_ok(fstring_first(part, locals, tmp, base), base),
    decreases part,
{
    broadcast use group_frames;

    lemma_empty_ok();
    match part {
        SynExpr::FormattedValue(v, _) => lemma_expr(*v, locals, tmp, base),
        _ => {},
    }
}

/// The code of the later parts of an f-string.
proof fn lemma_fstring_rest(parts: Seq<SynExpr>, locals: Seq<Seq<char>>, tmp: usize, base: int)
    ensures
        emit_ok(fstring_rest(parts, locals, tmp, base), base),
    decreases parts,
{
    broadcast use group_frames;

    lemma_empty_ok();
    if parts.len() > 0 {
        match parts[0] {
            SynExpr::FormattedValue(v, _) => {
                lemma_expr(*v, locals, tmp, base);
                assert(seq![Instr::Str, Instr::Add] =~= Seq::empty().push(Instr::Str).push(Instr::Add));
                if let Ok((cv, t1)) = expr_code(*v, locals, tmp, base) {
                    lemma_fstring_rest(
                        parts.drop_first(),
                        locals,
                        t1,
                        base + (cv + seq![Instr::Str, Instr::Add]).len(),
                    );
                }
            },
            SynExpr::Constant(Constant::Str(st)) => {
                assert(seq![Instr::PushString(st@), Instr::Add] =~= Seq::empty().push(
                    Instr::PushString(st@),
                ).push(Instr::Add));
                if st@.len() > 0 {
                    lemma_fstring_rest(
                        parts.drop_first(),
                        locals,
                        tmp,
                        base + seq![Instr::PushString(st@), Instr::Add].len(),
                    );
                } else {
                    lemma_fstring_rest(parts.drop_first(), locals, tmp, base + Seq::<Instr>::empty().len());
                }
            },
            _ => {
                lemma_fstring_rest(parts.drop_first(), locals, tmp, base + Seq::<Instr>::empty().len());
            },
        }
    }
}

/// The template of the filters of a comprehension.
proof fn lemma_filters(ifs: Seq<SynExpr>, locals: Seq<Seq<char>>, tmp: usize, base: int)
    ensures
        emit_t_ok(filters_code(ifs, locals, tmp, base), base, None),
        filters_code(ifs, locals, tmp, base) matches Ok((t, _)) ==> only_skip_holes(t),
    decreases ifs,
{
    broadcast use group_frames;

    lemma_empty_ok();
    if ifs.len() > 0 {
        lemma_expr(ifs[0], locals, tmp, base);
        if let Ok((cf, t1)) = expr_code(ifs[0], locals, tmp, base) {
            lemma_filters(ifs.drop_first(), locals, t1, base + cf.len() + 1);
        }
    }
}

/// Code without jumps or functions, in any range.
pub open spec fn plain_ok(c: Seq<Instr>) -> bool {
    forall|lo: int, hi: int| #[trigger] code_ok(c, lo, hi)
}

/// The stores of an unpacking assignment.
proof fn lemma_unpack(elts: Seq<SynExpr>, locals: Seq<Seq<char>>)
    ensures
        unpack_stores(elts, locals) matches Ok(c) ==> plain_ok(c),
    decreases elts.len(),
{
    broadcast use group_frames;

    lemma_empty_ok();
    if elts.len() > 0 {
        lemma_unpack(elts.drop_last(), locals);
        if let SynExpr::Name(n) = elts.last() {
            assert(seq![store_name(locals, n@), Instr::Pop] =~= Seq::empty().push(
                store_name(locals, n@),
            ).push(Instr::Pop));
        }
    }
}

/// The code of one target of an assignment.
proof fn lemma_target(target: SynExpr, value: SynExpr, locals: Seq<Seq<char>>, tmp: usize, base: int)
    ensures
        emit_ok(target_code(target, value, locals, tmp, base), base),
{
    broadcast use group_frames;

    lemma_empty_ok();
    lemma_expr(value, locals, tmp, base);
    match target {
        SynExpr::Tuple(elts) => {
            lemma_unpack(elts@, locals);
        },
        SynExpr::Name(n) => {
            assert(seq![store_name(locals, n@), Instr::Pop] =~= Seq::empty().push(
                store_name(locals, n@),
            ).push(Instr::Pop));
        },
        SynExpr::Subscript(obj, idx) => {
            if let Ok((cv, t1)) = expr_code(value, locals, tmp, base) {
                lemma_expr(*obj, locals, t1, base + cv.len());
                if let Ok((co, t2)) = expr_code(*obj, locals, t1, base + cv.len()) {
                    lemma_expr(*idx, locals, t2, base + cv.len() + co.len());
                }
            }
            assert(seq![Instr::SetItem, Instr::Pop] =~= Seq::empty().push(Instr::SetItem).push(
                Instr::Pop,
            ));
        },
        _ => {},
    }
}

/// The code of the targets of an assignment.
proof fn lemma_assign(targets: Seq<SynExpr>, value: SynExpr, locals: Seq<Seq<char>>, tmp: usize, base: int)
    ensures
        emit_ok(assign_code(targets, value, locals, tmp, base), base),
    decreases targets.len(),
{
    broadcast use group_frames;

    lemma_empty_ok();
    if targets.len() > 0 {
        lemma_target(targets[0], value, locals, tmp, base);
        if let Ok((c, t1)) = target_code(targets[0], value, locals, tmp, base) {
            lemma_assign(targets.drop_first(), value, locals, t1, base + c.len());
        }
    }
}

/// The code of `import`.
proof fn lemma_import(names: Seq<Alias>)
    ensures
        plain_ok(import_code(names)),
    decreases names.len(),
{
    broadcast use group_frames;

    lemma_empty_ok();
    if names.len() > 0 {
        lemma_import(names.drop_first());
        let a = names[0];
        let bound = match a.asname {
            Some(x) => x@,
            None => a.name@,
        };
        assert(seq![Instr::Import(a.name@), Instr::SetGlobal(bound), Instr::Pop] =~= Seq::empty().push(
            Instr::Import(a.name@),
        ).push(Instr::SetGlobal(bound)).push(Instr::Pop));
    }
}

/// The code of `from ... import`.
proof fn lemma_import_from(names: Seq<Alias>)
    ensures
        plain_ok(import_from_code(names)),
    decreases names.len(),
{
    broadcast use group_frames;

    lemma_empty_ok();
    if names.len() > 0 {
        lemma_import_from(names.drop_first());
        let a = names[0];
        let bound = match a.asname {
            Some(x) => x@,
            None => a.name@,
        };
        assert(seq![Instr::Dup, Instr::GetAttr(a.name@), Instr::SetGlobal(bound), Instr::Pop]
            =~= Seq::empty().push(Instr::Dup).push(Instr::GetAttr(a.name@)).push(
            Instr::SetGlobal(bound),
        ).push(Instr::Pop));
    }
}

/// The code that binds a caught exception.
proof fn lemma_bind(name: Option<String>, locals: Seq<Seq<char>>)
    ensures
        plain_ok(bind_code(name, locals)),
{
    broadcast use group_frames;

    lemma_empty_ok();
    if let Some(v) = name {
        assert(seq![store_name(locals, v@), Instr::Pop] =~= Seq::empty().push(
            store_name(locals, v@),
        ).push(Instr::Pop));
    }
}

/// A function definition: its body is a block of its own.
#[verifier::spinoff_prover]
#[verifier::rlimit(100)]
proof fn lemma_function(name: Seq<char>, params: Seq<String>, body: Seq<SynStmt>, is_async: bool)
    ensures
        function_code(name, params, body, is_async) matches Ok(fc) ==> (fc.len() <= usize::MAX
            ==> forall|lo: int, hi: int| #[trigger] template_ok(lift(fc), lo, hi)),
    decreases body, 1int,
{
    broadcast use group_frames;

    lemma_empty_ok();
    lemma_stmts(body, views(params), None, 0, 0);
    if let Ok((t, _)) = stmts_code(body, views(params), None, 0, 0) {
        let code = function_body(placed(t));
        let tail = if is_async {
            Seq::<Instr>::empty()
        } else {
            seq![Instr::PushNone]
        };
        let mk = Instr::MakeFunction {
            name: name,
            params: views(params),
            code_len: code.len() as usize,
            is_async: is_async,
        };
        let fc = seq![mk] + code + tail;
        if fc.len() <= usize::MAX {
            assert(seq![Instr::PushNone, Instr::Return] =~= Seq::empty().push(Instr::PushNone).push(
                Instr::Return,
            ));
            assert(template_ok(t, 0, code.len() as int));
            assert(code_ok(placed(t), 0, code.len() as int));
            assert(code_ok(code, 0, code.len() as int));
            let lf = lift(fc);
            assert forall|lo: int, hi: int| #[trigger] template_ok(lift(fc), lo, hi) by {
                reveal(template_ok);
                reveal(code_ok);
                let end: int = 1 + code.len() as int;
                assert(lf[0] == Slot::Op(mk));
                assert(lf.subrange(1, end) =~= lift(code));
                assert forall|j: int| 1 <= j < end implies #[trigger] lf[j] is Op by {
                    assert(lf[j] == Slot::Op(fc[j]));
                }
                if is_async {
                    assert(frame_ok(lf, end, lo, hi));
                } else {
                    assert(lf[end] == Slot::Op(Instr::PushNone));
                    assert(frame_ok(lf, end + 1, lo, hi));
                    assert(frame_ok(lf, end, lo, hi));
                }
                assert(frame_ok(lf, 0, lo, hi));
            }
        }
    }
}

/// The template of a statement.
#[verifier::spinoff_prover]
#[verifier::rlimit(100)]
proof fn lemma_stmt(s: SynStmt, locals: Seq<Seq<char>>, lp: Option<usize>, tmp: usize, base: int)
    ensures
        emit_t_ok(stmt_code(s, locals, lp, tmp, base), base, lp),
    decreases s, 3int,
{
    broadcast use group_frames;

    lemma_empty_ok();
    match s {
        SynStmt::Assign(targets, value) => {
            lemma_assign(targets@, value, locals, tmp, base);
        },
        SynStmt::FunctionDef(name, params, body) => {
            lemma_function(name@, params@, body@, false);
        },
        SynStmt::AsyncFunctionDef(name, params, body) => {
            lemma_function(name@, params@, body@, true);
        },
        SynStmt::Return(v) => {
            match v {
                Some(x) => lemma_expr(x, locals, tmp, base),
                None => {
                    assert(seq![Instr::PushNone, Instr::Return] =~= Seq::empty().push(
                        Instr::PushNone,
                    ).push(Instr::Return));
                },
            }
        },
        SynStmt::If(test, body, orelse) => {
            lemma_expr(test, locals, tmp, base);
            if let Ok((ct, t1)) = expr_code(test, locals, tmp, base) {
                lemma_stmts(body@, locals, lp, t1, base + ct.len() + 1);
                if let Ok((bt, t2)) = stmts_code(body@, locals, lp, t1, base + ct.len() + 1) {
                    let has_else = orelse@.len() > 0;
                    let else_start = base + ct.len() + 1 + bt.len() + if has_else {
                        1int
                    } else {
                        0int
                    };
                    lemma_stmts(orelse@, locals, lp, t2, else_start);
                }
            }
        },
        SynStmt::While(test, body) => {
            lemma_expr(test, locals, tmp, base);
            if let Ok((ct, t1)) = expr_code(test, locals, tmp, base) {
                lemma_stmts(body@, locals, Some(base as usize), t1, base + ct.len() + 1);
            }
        },
        SynStmt::For(target, iter, body) => {
            lemma_expr(iter, locals, tmp, base);
            if let Ok((ci, t1)) = expr_code(iter, locals, tmp, base) {
                if let SynExpr::Name(v) = target {
                    let loop_start = base + ci.len() + 1;
                    lemma_stmts(body@, locals, Some(loop_start as usize), t1, loop_start + 3);
                    if let Ok((bt, t2)) = stmts_code(
                        body@,
                        locals,
                        Some(loop_start as usize),
                        t1,
                        loop_start + 3,
                    ) {
                        let end = loop_start + 3 + bt.len() + 1;
                        assert(seq![
                            Slot::Op(Instr::GetIter),
                            Slot::Op(Instr::ForIter(end as usize)),
                            Slot::Op(store_name(locals, v@)),
                            Slot::Op(Instr::Pop),
                        ] =~= Seq::empty().push(Slot::Op(Instr::GetIter)).push(
                            Slot::Op(Instr::ForIter(end as usize)),
                        ).push(Slot::Op(store_name(locals, v@))).push(Slot::Op(Instr::Pop)));
                        assert(seq![Slot::Op(Instr::Jump(loop_start as usize)), Slot::Op(Instr::Pop)]
                            =~= Seq::empty().push(Slot::Op(Instr::Jump(loop_start as usize))).push(
                            Slot::Op(Instr::Pop),
                        ));
                    }
                }
            }
        },
        SynStmt::Expr(e) => lemma_expr(e, locals, tmp, base),
        SynStmt::Raise(exc) => {
            if let Some(x) = exc {
                lemma_expr(x, locals, tmp, base);
                if let SynExpr::Call(f, args) = x {
                    if args@.len() > 0 {
                        lemma_expr(args@[0], locals, tmp, base);
                    }
                    if let SynExpr::Name(n) = *f {
                        if let Some(et) = exception_named(n@) {
                            assert(seq![Instr::MakeException(et), Instr::Raise] =~= Seq::empty().push(
                                Instr::MakeException(et),
                            ).push(Instr::Raise));
                        }
                    }
                }
            }
        },
        SynStmt::Try(_, _, finalbody) => {
            if finalbody@.len() > 0 {
                lemma_try_finally(s, locals, lp, tmp, base);
            } else {
                lemma_try_except(s, locals, lp, tmp, base);
            }
        },
        SynStmt::Import(names) => lemma_import(names@),
        SynStmt::ImportFrom(_, names) => lemma_import_from(names@),
        SynStmt::AugAssign(target, op, value) => {
            if let SynExpr::Name(n) = target {
                lemma_expr(value, locals, tmp, base + 1);
                if let Some(i) = binop_instr(op) {
                    assert(seq![i, store_name(locals, n@), Instr::Pop] =~= Seq::empty().push(i).push(
                        store_name(locals, n@),
                    ).push(Instr::Pop));
                }
            }
        },
        _ => {},
    }
}

/// The template of statements in order.
#[verifier::spinoff_prover]
#[verifier::rlimit(100)]
proof fn lemma_stmts(ss: Seq<SynStmt>, locals: Seq<Seq<char>>, lp: Option<usize>, tmp: usize, base: int)
    ensures
        emit_t_ok(stmts_code(ss, locals, lp, tmp, base), base, lp),
    decreases ss, 0int,
{
    broadcast use group_frames;

    lemma_empty_ok();
    if ss.len() > 0 {
        lemma_stmt(ss[0], locals, lp, tmp, base);
        if let Ok((t, t1)) = stmt_code(ss[0], locals, lp, tmp, base) {
            lemma_stmts(ss.drop_first(), locals, lp, t1, base + t.len());
        }
    }
}

/// The template of one `except` clause.
#[verifier::spinoff_prover]
#[verifier::rlimit(100)]
proof fn lemma_handler(h: ExceptHandler, locals: Seq<Seq<char>>, lp: Option<usize>, tmp: usize, base: int)
    ensures
        emit_t_ok(handler_code(h, locals, lp, tmp, base), base, lp),
    decreases h, 1int,
{
    broadcast use group_frames;

    lemma_empty_ok();
    let bind = bind_code(h.name, locals);
    lemma_bind(h.name, locals);
    match h.type_ {
        Some(te) => {
            if let Ok(et) = handler_type(te) {
                assert(seq![Instr::Dup, Instr::PushInt(et.code() as i32), Instr::MatchException]
                    =~= Seq::empty().push(Instr::Dup).push(Instr::PushInt(et.code() as i32)).push(
                    Instr::MatchException,
                ));
                lemma_stmts(h.body@, locals, lp, tmp, base + 5 + bind.len());
                if let Ok((bt, _)) = stmts_code(h.body@, locals, lp, tmp, base + 5 + bind.len()) {
                    let next = base + 5 + bind.len() + bt.len() + 1;
                    assert(seq![Slot::Op(Instr::JumpIfFalse(next as usize)), Slot::Op(Instr::Pop)]
                        =~= Seq::empty().push(Slot::Op(Instr::JumpIfFalse(next as usize))).push(
                        Slot::Op(Instr::Pop),
                    ));
                    assert(seq![Slot::Hole(HoleKind::Exit), Slot::Op(Instr::Pop)] =~= Seq::empty().push(
                        Slot::Hole(HoleKind::Exit),
                    ).push(Slot::Op(Instr::Pop)));
                }
            }
        },
        None => {
            lemma_stmts(h.body@, locals, lp, tmp, base + bind.len());
        },
    }
}

/// The template of the `except` clauses of a `try` statement.
proof fn lemma_handlers(
    hs: Seq<ExceptHandler>,
    locals: Seq<Seq<char>>,
    lp: Option<usize>,
    tmp: usize,
    base: int,
)
    ensures
        emit_t_ok(handlers_code(hs, locals, lp, tmp, base), base, lp),
    decreases hs, 0int,
{
    broadcast use group_frames;

    lemma_empty_ok();
    if hs.len() > 0 {
        lemma_handler(hs[0], locals, lp, tmp, base);
        if let Ok((t, t1)) = handler_code(hs[0], locals, lp, tmp, base) {
            lemma_handlers(hs.drop_first(), locals, lp, t1, base + t.len());
        }
    }
}

/// The template of a `try` statement without `finally`.
#[verifier::spinoff_prover]
#[verifier::rlimit(100)]
proof fn lemma_try_except(s: SynStmt, locals: Seq<Seq<char>>, lp: Option<usize>, tmp: usize, base: int)
    ensures
        emit_t_ok(try_except_code(s, locals, lp, tmp, base), base, lp),
    decreases s, 1int,
{
    broadcast use group_frames;

    lemma_empty_ok();
    if let SynStmt::Try(body, handlers, _) = s {
        lemma_stmts(body@, locals, lp, tmp, base + 1);
        if let Ok((bt, t1)) = stmts_code(body@, locals, lp, tmp, base + 1) {
            let except_start = base + 1 + bt.len() + 2;
            lemma_handlers(handlers@, locals, lp, t1, except_start);
            assert(seq![Slot::Op(Instr::PopTry), Slot::Hole(HoleKind::Exit)] =~= Seq::empty().push(
                Slot::Op(Instr::PopTry),
            ).push(Slot::Hole(HoleKind::Exit)));
        }
    }
}

/// The template of a `try` statement with `finally`.
#[verifier::spinoff_prover]
#[verifier::rlimit(100)]
proof fn lemma_try_finally(s: SynStmt, locals: Seq<Seq<char>>, lp: Option<usize>, tmp: usize, base: int)
    ensures
        emit_t_ok(try_finally_code(s, locals, lp, tmp, base), base, lp),
    decreases s, 2int,
{
    broadcast use group_frames;

    lemma_empty_ok();
    if let SynStmt::Try(body, handlers, finalbody) = s {
        let inner = if handlers@.len() > 0 {
            lemma_try_except(s, locals, lp, tmp, base + 1);
            try_except_code(s, locals, lp, tmp, base + 1)
        } else {
            lemma_stmts(body@, locals, lp, tmp, base + 1);
            stmts_code(body@, locals, lp, tmp, base + 1)
        };
        if let Ok((it, t1)) = inner {
            let finally_start = base + 1 + it.len() + 3;
            lemma_stmts(finalbody@, locals, lp, t1, finally_start);
            assert(seq![
                Slot::Op(Instr::PopFinally),
                Slot::Op(Instr::PushNone),
                Slot::Op(Instr::Jump(finally_start as usize)),
            ] =~= Seq::empty().push(Slot::Op(Instr::PopFinally)).push(Slot::Op(Instr::PushNone)).push(
                Slot::Op(Instr::Jump(finally_start as usize)),
            ));
        }
    }
}

/// A block of code whose jumps all land inside it or just past its end,
/// and whose function bodies are such blocks in their own positions.
pub open spec fn frames_ok(code: Seq<Instr>) -> bool {
    frame_ok(lift(code), 0, 0, code.len() as int)
}

/// Compiled code keeps every jump inside the block it belongs to: the jumps
/// of the program land in the program or just past its end, and those of a
/// function body in that body, which runs in a frame of its own.
pub proof fn lemma_compiled_jumps_stay_in_frame(p: Program)
    ensures
        program_code(p) matches Ok(code) ==> (code.len() <= usize::MAX ==> frames_ok(code)),
{
    broadcast use group_frames;

    lemma_empty_ok();
    if let Ok(code) = program_code(p) {
        if code.len() <= usize::MAX {
            let hi = code.len() as int;
            match p {
                Program::Module(ss) => {
                    if ss@.len() > 0 {
                        let init = ss@.drop_last();
                        lemma_stmts(init, Seq::empty(), None, 0, 0);
                        if let Ok((t, n)) = stmts_code(init, Seq::empty(), None, 0, 0) {
                            match ss@.last() {
                                SynStmt::Expr(e) => lemma_expr(e, Seq::empty(), n, t.len() as int),
                                last => lemma_stmt(last, Seq::empty(), None, n, t.len() as int),
                            }
                        }
                    }
                },
                Program::Expression(e) => lemma_expr(e, Seq::empty(), 0, 0),
            }
            assert(code_ok(code, 0, hi));
            reveal(code_ok);
        }
    }
}

} // verus!
