//! Code with holes: instruction sequences in which some jumps wait for a
//! target that is only known once later code has been laid out.
//!
//! The compiler emits a placeholder jump to 0 for each hole, records where it
//! stands, and writes the target into every recorded place once it is known.
use vstd::prelude::*;
use crate::bytecode::{Instr, Instruction, code_view};

verus! {

/// What a hole is waiting for.
#[derive(Clone, Copy, PartialEq, Eq, Structural)]
pub enum HoleKind {
    /// A `break`: an unconditional jump to the end of the innermost loop.
    Break,
    /// An unconditional jump to the end of a `try` statement.
    Exit,
    /// A conditional jump past the element of a list comprehension.
    Skip,
}

/// One place of a code template: an instruction, or a hole.
pub enum Slot {
    Op(Instr),
    Hole(HoleKind),
}

/// The jump that fills a hole of kind `k` with target `target`.
pub open spec fn hole_instr(k: HoleKind, target: usize) -> Instr {
    match k {
        HoleKind::Skip => Instr::JumpIfFalse(target),
        _ => Instr::Jump(target),
    }
}

/// The instruction emitted for a place: a hole is emitted as its jump to 0.
pub open spec fn slot_instr(s: Slot) -> Instr {
    match s {
        Slot::Op(i) => i,
        Slot::Hole(k) => hole_instr(k, 0),
    }
}

/// The instructions emitted for a template.
pub open spec fn placed(t: Seq<Slot>) -> Seq<Instr> {
    t.map_values(|s: Slot| slot_instr(s))
}

/// Complete code as a template without holes.
pub open spec fn lift(c: Seq<Instr>) -> Seq<Slot> {
    c.map_values(|i: Instr| Slot::Op(i))
}

/// A place with its hole of kind `k`, if it is one, filled with `target`.
pub open spec fn fill_slot(s: Slot, k: HoleKind, target: usize) -> Slot {
    match s {
        Slot::Hole(h) => if h == k {
            Slot::Op(hole_instr(k, target))
        } else {
            s
        },
        _ => s,
    }
}

/// The template with every hole of kind `k` filled with `target`.
pub open spec fn fill(t: Seq<Slot>, k: HoleKind, target: usize) -> Seq<Slot> {
    t.map_values(|s: Slot| fill_slot(s, k, target))
}

/// The positions, in increasing order, of the holes of kind `k` in a
/// template laid out from position `base`.
pub open spec fn holes(t: Seq<Slot>, k: HoleKind, base: int) -> Seq<int>
    decreases t.len(),
{
    if t.len() == 0 {
        seq![]
    } else {
        holes(t.drop_last(), k, base) + if t.last() == Slot::Hole(k) {
            seq![base + t.len() - 1]
        } else {
            seq![]
        }
    }
}


/// No place of the template is a hole of kind `k`.
pub open spec fn no_hole(t: Seq<Slot>, k: HoleKind) -> bool {
    forall|i: int| 0 <= i < t.len() ==> t[i] != Slot::Hole(k)
}

/// A template without holes of kind `k` lists none.
pub proof fn lemma_no_hole_holes(t: Seq<Slot>, k: HoleKind, base: int)
    requires
        no_hole(t, k),
    ensures
        holes(t, k, base) == Seq::<int>::empty(),
    decreases t.len(),
{
    if t.len() > 0 {
        assert(t.last() == t[t.len() - 1]);
        lemma_no_hole_holes(t.drop_last(), k, base);
        assert(holes(t, k, base) =~= Seq::<int>::empty());
    }
}

/// Two templates without holes of kind `k` have none side by side.
pub proof fn lemma_no_hole_append(a: Seq<Slot>, b: Seq<Slot>, k: HoleKind)
    requires
        no_hole(a, k),
        no_hole(b, k),
    ensures
        no_hole(a + b, k),
{
    assert forall|i: int| 0 <= i < (a + b).len() implies (a + b)[i] != Slot::Hole(k) by {
        if i < a.len() {
            assert((a + b)[i] == a[i]);
        } else {
            assert((a + b)[i] == b[i - a.len()]);
        }
    }
}

/// Facts about complete code taken as a template.
pub proof fn lemma_lift(c: Seq<Instr>, base: int)
    ensures
        placed(lift(c)) == c,
        no_hole(lift(c), HoleKind::Break),
        no_hole(lift(c), HoleKind::Exit),
        holes(lift(c), HoleKind::Break, base) == Seq::<int>::empty(),
        holes(lift(c), HoleKind::Exit, base) == Seq::<int>::empty(),
        fill(lift(c), HoleKind::Break, 0) == lift(c),
{
    assert(placed(lift(c)) =~= c);
    lemma_holes_lift(c, HoleKind::Break, base);
    lemma_holes_lift(c, HoleKind::Exit, base);
    assert(fill(lift(c), HoleKind::Break, 0) =~= lift(c));
}

/// Filling the holes of one kind leaves none of that kind, and leaves the
/// holes of every other kind where they were.
pub proof fn lemma_fill_holes(t: Seq<Slot>, k: HoleKind, target: usize, other: HoleKind, base: int)
    ensures
        no_hole(fill(t, k, target), k),
        holes(fill(t, k, target), k, base) == Seq::<int>::empty(),
        other != k ==> holes(fill(t, k, target), other, base) == holes(t, other, base),
        other != k ==> (no_hole(t, other) ==> no_hole(fill(t, k, target), other)),
        fill(t, k, target).len() == t.len(),
    decreases t.len(),
{
    let f = fill(t, k, target);
    assert forall|i: int| 0 <= i < f.len() implies f[i] != Slot::Hole(k) by {
        assert(f[i] == fill_slot(t[i], k, target));
    }
    lemma_no_hole_holes(f, k, base);
    if t.len() > 0 {
        lemma_fill_holes(t.drop_last(), k, target, other, base);
        assert(f.drop_last() =~= fill(t.drop_last(), k, target));
        assert(f.last() == fill_slot(t.last(), k, target));
    }
    if other != k {
        assert forall|i: int| 0 <= i < f.len() && no_hole(t, other) implies f[i] != Slot::Hole(
            other,
        ) by {
            assert(f[i] == fill_slot(t[i], k, target));
            assert(t[i] != Slot::Hole(other));
        }
    }
}

/// Filling and emitting distribute over templates laid side by side.
pub proof fn lemma_fill_append(a: Seq<Slot>, b: Seq<Slot>, k: HoleKind, target: usize)
    ensures
        fill(a + b, k, target) == fill(a, k, target) + fill(b, k, target),
        placed(a + b) == placed(a) + placed(b),
{
    assert(fill(a + b, k, target) =~= fill(a, k, target) + fill(b, k, target));
    assert(placed(a + b) =~= placed(a) + placed(b));
}


/// A template made of complete code around two templates: where its holes
/// stand, what is emitted for it, and that it has no hole of kind `k` where
/// the two inner templates have none.
pub proof fn lemma_shape(
    a: Seq<Instr>,
    b1: Seq<Slot>,
    m: Seq<Instr>,
    b2: Seq<Slot>,
    z: Seq<Instr>,
    k: HoleKind,
    base: int,
)
    ensures
        ({
            let t = lift(a) + b1 + lift(m) + b2 + lift(z);
            &&& holes(t, k, base) == holes(b1, k, base + a.len()) + holes(
                b2,
                k,
                base + a.len() + b1.len() + m.len(),
            )
            &&& placed(t) == a + placed(b1) + m + placed(b2) + z
            &&& t.len() == a.len() + b1.len() + m.len() + b2.len() + z.len()
            &&& (no_hole(b1, k) && no_hole(b2, k) ==> no_hole(t, k))
        }),
{
    let la = lift(a);
    let lm = lift(m);
    let lz = lift(z);
    lemma_lift(a, base);
    lemma_lift(m, base);
    lemma_lift(z, base);
    lemma_holes_lift(a, k, base);
    lemma_holes_lift(m, k, base + a.len() + b1.len());
    lemma_holes_lift(z, k, base + a.len() + b1.len() + m.len() + b2.len());
    lemma_holes_append(la, b1, k, base);
    lemma_holes_append(la + b1, lm, k, base);
    lemma_holes_append(la + b1 + lm, b2, k, base);
    lemma_holes_append(la + b1 + lm + b2, lz, k, base);
    assert(holes(la, k, base) + holes(b1, k, base + a.len()) =~= holes(b1, k, base + a.len()));
    assert(holes(la + b1, k, base) + Seq::<int>::empty() =~= holes(la + b1, k, base));
    assert(holes(la + b1 + lm + b2, k, base) + Seq::<int>::empty() =~= holes(
        la + b1 + lm + b2,
        k,
        base,
    ));
    lemma_fill_append(la, b1, k, 0);
    lemma_fill_append(la + b1, lm, k, 0);
    lemma_fill_append(la + b1 + lm, b2, k, 0);
    lemma_fill_append(la + b1 + lm + b2, lz, k, 0);
    assert(placed(la) =~= a);
    assert(placed(lm) =~= m);
    assert(placed(lz) =~= z);
    if no_hole(b1, k) && no_hole(b2, k) {
        assert(no_hole(la, k)) by {
            assert forall|i: int| 0 <= i < la.len() implies la[i] != Slot::Hole(k) by {
                assert(la[i] == Slot::Op(a[i]));
            }
        }
        assert(no_hole(lm, k)) by {
            assert forall|i: int| 0 <= i < lm.len() implies lm[i] != Slot::Hole(k) by {
                assert(lm[i] == Slot::Op(m[i]));
            }
        }
        assert(no_hole(lz, k)) by {
            assert forall|i: int| 0 <= i < lz.len() implies lz[i] != Slot::Hole(k) by {
                assert(lz[i] == Slot::Op(z[i]));
            }
        }
        lemma_no_hole_append(la, b1, k);
        lemma_no_hole_append(la + b1, lm, k);
        lemma_no_hole_append(la + b1 + lm, b2, k);
        lemma_no_hole_append(la + b1 + lm + b2, lz, k);
    }
}

/// The positions of a list, as integers.
pub open spec fn as_ints(v: Seq<usize>) -> Seq<int> {
    v.map_values(|p: usize| p as int)
}

/// `c` with the instruction `i` written at each position of `ps`, in order.
pub open spec fn write_all(c: Seq<Instr>, ps: Seq<int>, i: Instr) -> Seq<Instr>
    decreases ps.len(),
{
    if ps.len() == 0 {
        c
    } else {
        write_all(c, ps.drop_last(), i).update(ps.last(), i)
    }
}

/// Every listed hole lies within the template.
pub proof fn lemma_holes_in_range(t: Seq<Slot>, k: HoleKind, base: int)
    ensures
        forall|j: int|
            0 <= j < holes(t, k, base).len() ==> base <= #[trigger] holes(t, k, base)[j] < base
                + t.len(),
    decreases t.len(),
{
    if t.len() > 0 {
        let u = t.drop_last();
        lemma_holes_in_range(u, k, base);
        let tail = if t.last() == Slot::Hole(k) {
            seq![base + t.len() - 1]
        } else {
            seq![]
        };
        assert(holes(t, k, base) == holes(u, k, base) + tail);
        assert forall|j: int| 0 <= j < holes(t, k, base).len() implies base <= #[trigger] holes(
            t,
            k,
            base,
        )[j] < base + t.len() by {
            if j < holes(u, k, base).len() {
                assert(holes(t, k, base)[j] == holes(u, k, base)[j]);
            } else {
                assert(holes(t, k, base)[j] == tail[j - holes(u, k, base).len()]);
            }
        }
    }
}

/// The holes of two templates side by side: those of the first, then those
/// of the second, shifted by the length of the first.
pub proof fn lemma_holes_append(a: Seq<Slot>, b: Seq<Slot>, k: HoleKind, base: int)
    ensures
        holes(a + b, k, base) == holes(a, k, base) + holes(b, k, base + a.len()),
    decreases b.len(),
{
    if b.len() == 0 {
        assert(a + b =~= a);
        assert(holes(a, k, base) + holes(b, k, base + a.len()) =~= holes(a, k, base));
    } else {
        lemma_holes_append(a, b.drop_last(), k, base);
        assert((a + b).drop_last() =~= a + b.drop_last());
        assert((a + b).last() == b.last());
        let tail = if b.last() == Slot::Hole(k) {
            seq![base + a.len() + b.len() - 1]
        } else {
            seq![]
        };
        assert(holes(a + b, k, base) == holes(a + b.drop_last(), k, base) + tail);
        assert(holes(b, k, base + a.len()) == holes(b.drop_last(), k, base + a.len()) + tail);
        assert(holes(a, k, base) + holes(b.drop_last(), k, base + a.len()) + tail =~= holes(
            a,
            k,
            base,
        ) + (holes(b.drop_last(), k, base + a.len()) + tail));
    }
}

/// Complete code has no holes.
pub proof fn lemma_holes_lift(c: Seq<Instr>, k: HoleKind, base: int)
    ensures
        holes(lift(c), k, base) == Seq::<int>::empty(),
    decreases c.len(),
{
    if c.len() > 0 {
        assert(lift(c).drop_last() =~= lift(c.drop_last()));
        lemma_holes_lift(c.drop_last(), k, base);
    }
}

/// The holes of a one-place template.
pub proof fn lemma_holes_single(s: Slot, k: HoleKind, base: int)
    ensures
        holes(seq![s], k, base) == (if s == Slot::Hole(k) {
            seq![base]
        } else {
            Seq::<int>::empty()
        }),
{
    let t = seq![s];
    assert(t.drop_last() =~= Seq::<Slot>::empty());
    assert(holes(Seq::<Slot>::empty(), k, base) == Seq::<int>::empty());
    assert(t.last() == s);
    if s == Slot::Hole(k) {
        assert(holes(t, k, base) =~= seq![base]);
    } else {
        assert(holes(t, k, base) =~= Seq::<int>::empty());
    }
}

proof fn lemma_write_all_append_tail(c: Seq<Instr>, x: Instr, ps: Seq<int>, i: Instr)
    requires
        forall|j: int| 0 <= j < ps.len() ==> 0 <= #[trigger] ps[j] < c.len(),
    ensures
        write_all(c.push(x), ps, i) == write_all(c, ps, i).push(x),
        write_all(c, ps, i).len() == c.len(),
    decreases ps.len(),
{
    if ps.len() > 0 {
        lemma_write_all_append_tail(c, x, ps.drop_last(), i);
        assert(ps.last() == ps[ps.len() - 1]);
        assert(write_all(c.push(x), ps, i) =~= write_all(c, ps, i).push(x));
    }
}

proof fn lemma_write_all_concat(c: Seq<Instr>, p: Seq<int>, q: Seq<int>, i: Instr)
    ensures
        write_all(c, p + q, i) == write_all(write_all(c, p, i), q, i),
    decreases q.len(),
{
    if q.len() == 0 {
        assert(p + q =~= p);
    } else {
        lemma_write_all_concat(c, p, q.drop_last(), i);
        assert((p + q).drop_last() =~= p + q.drop_last());
        assert((p + q).last() == q.last());
    }
}

/// Writing the target's jump at each recorded hole of kind `k` fills
/// exactly those holes.
pub proof fn lemma_write_holes(prefix: Seq<Instr>, t: Seq<Slot>, k: HoleKind, target: usize)
    ensures
        write_all(prefix + placed(t), holes(t, k, prefix.len() as int), hole_instr(k, target))
            == prefix + placed(fill(t, k, target)),
    decreases t.len(),
{
    let base = prefix.len() as int;
    let v = hole_instr(k, target);
    if t.len() == 0 {
        assert(placed(t) =~= Seq::<Instr>::empty());
        assert(placed(fill(t, k, target)) =~= Seq::<Instr>::empty());
        assert(prefix + placed(t) =~= prefix);
        assert(prefix + placed(fill(t, k, target)) =~= prefix);
        assert(holes(t, k, base) == Seq::<int>::empty());
    } else {
        let u = t.drop_last();
        let s = t.last();
        let x = slot_instr(s);
        lemma_write_holes(prefix, u, k, target);
        lemma_holes_in_range(u, k, base);
        assert(placed(t) =~= placed(u).push(x));
        assert(prefix + placed(t) =~= (prefix + placed(u)).push(x));
        lemma_write_all_append_tail(prefix + placed(u), x, holes(u, k, base), v);
        assert(write_all(prefix + placed(t), holes(u, k, base), v) == (prefix + placed(
            fill(u, k, target),
        )).push(x));
        assert(fill(t, k, target) =~= fill(u, k, target).push(fill_slot(s, k, target)));
        assert(placed(fill(t, k, target)) =~= placed(fill(u, k, target)).push(
            slot_instr(fill_slot(s, k, target)),
        ));
        let tail = if s == Slot::Hole(k) {
            seq![base + t.len() - 1]
        } else {
            seq![]
        };
        assert(holes(t, k, base) == holes(u, k, base) + tail);
        lemma_write_all_concat(prefix + placed(t), holes(u, k, base), tail, v);
        let mid = (prefix + placed(fill(u, k, target))).push(x);
        if s == Slot::Hole(k) {
            assert(tail.drop_last() =~= Seq::<int>::empty());
            assert(tail.last() == base + t.len() - 1);
            assert(write_all(mid, tail, v) == write_all(mid, Seq::<int>::empty(), v).update(
                base + t.len() - 1,
                v,
            ));
            assert(write_all(mid, tail, v) =~= prefix + placed(fill(t, k, target)));
        } else {
            assert(write_all(mid, tail, v) == mid);
            assert(mid =~= prefix + placed(fill(t, k, target)));
        }
    }
}

/// The jump that fills a hole of kind `kind` with target `target`.
fn hole_jump(kind: HoleKind, target: usize) -> (res: Instruction)
    ensures
        res@ == hole_instr(kind, target),
{
    match kind {
        HoleKind::Skip => Instruction::JumpIfFalse(target),
        _ => Instruction::Jump(target),
    }
}

/// Writes the jump to `target` at each of the recorded positions.
pub fn write_jumps(bc: &mut Vec<Instruction>, positions: &Vec<usize>, kind: HoleKind, target: usize)
    requires
        forall|j: int| 0 <= j < positions@.len() ==> #[trigger] positions@[j] < old(bc)@.len(),
    ensures
        final(bc)@.len() == old(bc)@.len(),
        code_view(final(bc)@) == write_all(
            code_view(old(bc)@),
            as_ints(positions@),
            hole_instr(kind, target),
        ),
{
    let n = positions.len();
    let mut j: usize = 0;
    while j < n
        invariant
            n == positions@.len(),
            j <= n,
            bc@.len() == old(bc)@.len(),
            forall|q: int| 0 <= q < positions@.len() ==> #[trigger] positions@[q] < old(bc)@.len(),
            code_view(bc@) == write_all(
                code_view(old(bc)@),
                as_ints(positions@.subrange(0, j as int)),
                hole_instr(kind, target),
            ),
        decreases n - j,
    {
        let p = positions[j];
        let ghost before = code_view(bc@);
        bc.set(p, hole_jump(kind, target));
        proof {
            let ps = as_ints(positions@.subrange(0, j + 1));
            assert(ps.drop_last() =~= as_ints(positions@.subrange(0, j as int)));
            assert(ps.last() == p as int);
            assert(code_view(bc@) =~= before.update(p as int, hole_instr(kind, target)));
        }
        j = j + 1;
    }
    assert(positions@.subrange(0, n as int) =~= positions@);
}

} // verus!
