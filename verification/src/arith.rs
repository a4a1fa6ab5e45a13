//! Arithmetic on integers and ordering of strings, as the machine's binary
//! operators do them.
//!
//! Integers are 32-bit. Division and remainder round toward zero, as Rust's
//! `/` and `%` on `i32` do; a zero divisor raises `ZeroDivisionError`. An
//! operation whose exact result does not fit in 32 bits is outside what these
//! functions accept. Strings are ordered lexicographically by code point.
use vstd::prelude::*;

use crate::text::to_chars;
use crate::value::{raised, ExceptionType, ExceptionValue, Raised};

verus! {

/// A binary arithmetic operator on two integers.
#[derive(Debug, Clone, Copy, PartialEq, Eq, Structural)]
pub enum IntOp {
    Add,
    Sub,
    Mul,
    Div,
    Mod,
}

/// The magnitude of `a`.
pub open spec fn magnitude(a: int) -> int {
    if a < 0 {
        -a
    } else {
        a
    }
}

/// `a / b` rounded toward zero (`b != 0`): the quotient of the magnitudes,
/// negative when exactly one of `a` and `b` is.
pub open spec fn quotient(a: int, b: int) -> int {
    if (a < 0) == (b < 0) {
        magnitude(a) / magnitude(b)
    } else {
        -(magnitude(a) / magnitude(b))
    }
}

/// The remainder that goes with [`quotient`]: `a - b * quotient(a, b)`.
pub open spec fn remainder(a: int, b: int) -> int {
    a - b * quotient(a, b)
}

/// Whether the operator can be applied to `a` and `b` without leaving the
/// 32-bit range: the exact sum, difference or product fits, and a division
/// or remainder is not `i32::MIN` by `-1`.
pub open spec fn int_op_fits(op: IntOp, a: int, b: int) -> bool {
    match op {
        IntOp::Add => i32::MIN <= a + b <= i32::MAX,
        IntOp::Sub => i32::MIN <= a - b <= i32::MAX,
        IntOp::Mul => i32::MIN <= a * b <= i32::MAX,
        IntOp::Div | IntOp::Mod => !(a == i32::MIN && b == -1),
    }
}

/// The outcome of `a op b` on integers: the exact value, or the exception a
/// zero divisor raises.
pub open spec fn int_op_result(op: IntOp, a: int, b: int) -> Result<int, Raised> {
    match op {
        IntOp::Add => Ok(a + b),
        IntOp::Sub => Ok(a - b),
        IntOp::Mul => Ok(a * b),
        IntOp::Div => if b == 0 {
            Err((ExceptionType::ZeroDivisionError, "division by zero"@))
        } else {
            Ok(quotient(a, b))
        },
        IntOp::Mod => if b == 0 {
            Err((ExceptionType::ZeroDivisionError, "integer modulo by zero"@))
        } else {
            Ok(remainder(a, b))
        },
    }
}

/// For a non-negative `x` and a negative `d`, Euclidean division by `d`
/// is division by `-d` with the quotient negated.
proof fn lemma_div_negative_divisor(x: int, d: int)
    requires
        0 <= x,
        d < 0,
    ensures
        x / d == -(x / (-d)),
        x % d == x % (-d),
{
    let q = x / (-d);
    let r = x % (-d);
    vstd::arithmetic::div_mod::lemma_fundamental_div_mod(x, -d);
    vstd::arithmetic::div_mod::lemma_mod_bound(x, -d);
    assert(x == d * (-q) + r) by (nonlinear_arith)
        requires
            x == (-d) * q + r,
    ;
    vstd::arithmetic::div_mod::lemma_fundamental_div_mod(x, d);
    assert(x / d == -q && x % d == r) by (nonlinear_arith)
        requires
            x == d * (-q) + r,
            0 <= r < -d,
            d < 0,
            x == d * (x / d) + x % d,
            0 <= x % d < -d,
    ;
}

/// Rust's truncating `/` and `%` on `i32` give the quotient and remainder
/// rounded toward zero.
proof fn lemma_truncating(a: i32, b: i32)
    requires
        b != 0,
        !(a == i32::MIN && b == -1),
    ensures
        (if a >= 0 {
            a as int / b as int
        } else {
            -((-a as int) / (b as int))
        }) == quotient(a as int, b as int),
        (if a >= 0 {
            a as int % b as int
        } else {
            -((-a as int) % (b as int))
        }) == remainder(a as int, b as int),
        i32::MIN <= quotient(a as int, b as int) <= i32::MAX,
        i32::MIN <= remainder(a as int, b as int) <= i32::MAX,
{
    let ai = a as int;
    let bi = b as int;
    let ma = magnitude(ai);
    let mb = magnitude(bi);
    vstd::arithmetic::div_mod::lemma_fundamental_div_mod(ma, mb);
    vstd::arithmetic::div_mod::lemma_fundamental_div_mod(ma, bi);
    vstd::arithmetic::div_mod::lemma_mod_bound(ma, mb);
    // The Euclidean quotient of a non-negative number by `b` and by `|b|`
    // differ only in sign, and their remainders agree.
    if bi < 0 {
        lemma_div_negative_divisor(ma, bi);
    }
    assert(ma * 1 == ma);
    if ai >= 0 {
        assert(ma == ai);
        assert(bi * (ma / bi) == mb * (ma / mb)) by (nonlinear_arith)
            requires
                ma / bi == (if bi < 0 { -(ma / mb) } else { ma / mb }),
                mb == magnitude(bi),
        ;
    } else {
        assert(ma == -ai);
        assert(bi * (ma / bi) == mb * (ma / mb)) by (nonlinear_arith)
            requires
                ma / bi == (if bi < 0 { -(ma / mb) } else { ma / mb }),
                mb == magnitude(bi),
        ;
        assert(bi * quotient(ai, bi) == -(mb * (ma / mb))) by (nonlinear_arith)
            requires
                quotient(ai, bi) == (if (ai < 0) == (bi < 0) { ma / mb } else { -(ma / mb) }),
                ai < 0,
                mb == magnitude(bi),
        ;
    }
    // Both results are no larger in magnitude than `a`, and the quotient is
    // at most half of it when the divisor is not `1` or `-1`.
    let q = ma / mb;
    assert(0 <= q <= ma && (mb >= 2 ==> 2 * q <= ma)) by (nonlinear_arith)
        requires
            ma == mb * q + ma % mb,
            0 <= ma % mb < mb,
            mb >= 1,
            ma >= 0,
    ;
    assert(ma <= 0x8000_0000);
    assert(mb <= 0x8000_0000);
    assert(ai == i32::MIN && bi < 0 ==> mb >= 2);
}

/// `a op b` on two integers, or the `ZeroDivisionError` that a zero divisor
/// raises.
pub fn int_binary(op: IntOp, a: i32, b: i32) -> (res: Result<i32, ExceptionValue>)
    requires
        int_op_fits(op, a as int, b as int),
    ensures
        match int_op_result(op, a as int, b as int) {
            Ok(v) => res matches Ok(x) && x as int == v,
            Err(r) => res matches Err(e) && raised(e) == r && e.traceback is None,
        },
{
    match op {
        IntOp::Add => Ok(a + b),
        IntOp::Sub => Ok(a - b),
        IntOp::Mul => Ok(a * b),
        IntOp::Div => {
            if b == 0 {
                return Err(
                    ExceptionValue::new(
                        ExceptionType::ZeroDivisionError,
                        String::from_str("division by zero"),
                    ),
                );
            }
            proof {
                lemma_truncating(a, b);
            }
            let q = a / b;
            assert(q == quotient(a as int, b as int));
            Ok(q)
        },
        IntOp::Mod => {
            if b == 0 {
                return Err(
                    ExceptionValue::new(
                        ExceptionType::ZeroDivisionError,
                        String::from_str("integer modulo by zero"),
                    ),
                );
            }
            proof {
                lemma_truncating(a, b);
            }
            let m = a % b;
            assert(m == remainder(a as int, b as int));
            Ok(m)
        },
    }
}

/// Whether `a` comes before `b` in lexicographic order of code points: at
/// the first place where they differ `a` has the smaller character, or `a` is
/// a proper prefix of `b`.
pub open spec fn text_before(a: Seq<char>, b: Seq<char>) -> bool
    decreases a.len(),
{
    if a.len() == 0 {
        b.len() > 0
    } else if b.len() == 0 {
        false
    } else if a[0] != b[0] {
        (a[0] as int) < (b[0] as int)
    } else {
        text_before(a.drop_first(), b.drop_first())
    }
}

/// `a < b` on two strings.
pub fn text_less(a: &str, b: &str) -> (res: bool)
    ensures
        res == text_before(a@, b@),
{
    let x = to_chars(a);
    let y = to_chars(b);
    let mut i: usize = 0;
    assert(x@.skip(0) =~= x@);
    assert(y@.skip(0) =~= y@);
    while i < x.len() && i < y.len()
        invariant
            x@ == a@,
            y@ == b@,
            i <= x@.len(),
            i <= y@.len(),
            text_before(a@, b@) == text_before(x@.skip(i as int), y@.skip(i as int)),
        decreases x@.len() - i,
    {
        let ghost xs = x@.skip(i as int);
        let ghost ys = y@.skip(i as int);
        assert(xs[0] == x@[i as int]);
        assert(ys[0] == y@[i as int]);
        if x[i] != y[i] {
            return x[i] < y[i];
        }
        assert(xs.drop_first() =~= x@.skip(i + 1));
        assert(ys.drop_first() =~= y@.skip(i + 1));
        i = i + 1;
    }
    assert(x@.skip(i as int).len() == 0 || y@.skip(i as int).len() == 0);
    x.len() <= i && i < y.len()
}

/// Division and remainder round toward zero: for a non-zero divisor the
/// quotient and remainder put `a` back together, the remainder is smaller
/// than the divisor in magnitude and never has the opposite sign of `a`,
/// and the quotient is the magnitude quotient with the sign of `a / b`.
/// So `-7 / 2 == -3` and `-7 % 2 == -1`.
pub proof fn lemma_division_rounds_toward_zero(a: int, b: int)
    requires
        b != 0,
    ensures
        quotient(a, b) * b + remainder(a, b) == a,
        0 <= magnitude(remainder(a, b)) < magnitude(b),
        a >= 0 ==> remainder(a, b) >= 0,
        a < 0 ==> remainder(a, b) <= 0,
        (a >= 0) == (b > 0) ==> quotient(a, b) >= 0,
        magnitude(quotient(a, b)) * magnitude(b) <= magnitude(a),
{
    let ma = magnitude(a);
    let mb = magnitude(b);
    vstd::arithmetic::div_mod::lemma_fundamental_div_mod(ma, mb);
    vstd::arithmetic::div_mod::lemma_mod_bound(ma, mb);
    let q = ma / mb;
    let r = ma % mb;
    assert(q >= 0) by {
        vstd::arithmetic::div_mod::lemma_div_pos_is_pos(ma, mb);
    }
    assert(quotient(a, b) * b + remainder(a, b) == a) by (nonlinear_arith)
        requires
            remainder(a, b) == a - b * quotient(a, b);
    if (a < 0) == (b < 0) {
        assert(quotient(a, b) == q);
        assert(q * b == if b < 0 { -(q * mb) } else { q * mb }) by (nonlinear_arith)
            requires mb == magnitude(b);
        assert(remainder(a, b) == if a < 0 { -r } else { r }) by (nonlinear_arith)
            requires
                remainder(a, b) == a - q * b,
                q * b == (if b < 0 { -(q * mb) } else { q * mb }),
                ma == mb * q + r,
                ma == magnitude(a),
                (a < 0) == (b < 0);
    } else {
        assert(quotient(a, b) == -q);
        assert((-q) * b == if b < 0 { q * mb } else { -(q * mb) }) by (nonlinear_arith)
            requires mb == magnitude(b);
        assert(remainder(a, b) == if a < 0 { -r } else { r }) by (nonlinear_arith)
            requires
                remainder(a, b) == a - (-q) * b,
                (-q) * b == (if b < 0 { q * mb } else { -(q * mb) }),
                ma == mb * q + r,
                ma == magnitude(a),
                (a < 0) != (b < 0);
    }
    assert(magnitude(quotient(a, b)) == q);
    assert(q * mb <= ma) by (nonlinear_arith)
        requires ma == mb * q + r, r >= 0;
}

/// Each integer operator computes its arithmetic operation: `+` the sum,
/// `-` the difference, `*` the product, `/` and `%` the quotient and
/// remainder rounded toward zero, and a zero divisor raises
/// `ZeroDivisionError`.
pub proof fn lemma_int_ops_compute(a: int, b: int)
    ensures
        int_op_result(IntOp::Add, a, b) == Ok::<int, Raised>(a + b),
        int_op_result(IntOp::Sub, a, b) == Ok::<int, Raised>(a - b),
        int_op_result(IntOp::Mul, a, b) == Ok::<int, Raised>(a * b),
        b != 0 ==> (int_op_result(IntOp::Div, a, b) matches Ok(q) && q * b + (a - q * b) == a
            && magnitude(a - q * b) < magnitude(b) && (a >= 0 ==> a - q * b >= 0) && (a < 0 ==> a - q * b <= 0)),
        b != 0 ==> int_op_result(IntOp::Mod, a, b) == Ok::<int, Raised>(a - b * quotient(a, b)),
        b == 0 ==> (int_op_result(IntOp::Div, a, b) matches Err(r) && r.0 == ExceptionType::ZeroDivisionError),
        b == 0 ==> (int_op_result(IntOp::Mod, a, b) matches Err(r) && r.0 == ExceptionType::ZeroDivisionError),
{
    if b != 0 {
        lemma_division_rounds_toward_zero(a, b);
        assert(a - quotient(a, b) * b == remainder(a, b)) by (nonlinear_arith)
            requires
                remainder(a, b) == a - b * quotient(a, b);
    }
}

/// The order of strings is the dictionary order of code points: a proper
/// prefix comes first, and otherwise the first place where the strings
/// differ decides.
pub proof fn lemma_text_order_is_lexicographic(a: Seq<char>, b: Seq<char>, i: int)
    requires
        0 <= i <= a.len(),
        i <= b.len(),
        a.subrange(0, i) == b.subrange(0, i),
    ensures
        i == a.len() && i < b.len() ==> text_before(a, b),
        i == b.len() ==> !text_before(a, b),
        i < a.len() && i < b.len() && a[i] != b[i] ==> (text_before(a, b) <==> (a[i] as int) < (b[i] as int)),
    decreases i,
{
    if i > 0 {
        assert(a[0] == a.subrange(0, i)[0]);
        assert(b[0] == b.subrange(0, i)[0]);
        assert(a.drop_first().subrange(0, i - 1) =~= a.subrange(0, i).drop_first());
        assert(b.drop_first().subrange(0, i - 1) =~= b.subrange(0, i).drop_first());
        lemma_text_order_is_lexicographic(a.drop_first(), b.drop_first(), i - 1);
    }
}

/// The order of strings is total and strict: of `a < b`, `a == b` and
/// `b < a`, exactly one holds. So `a <= b` is `!(b < a)`, and `a >= b` is
/// `!(a < b)`.
pub proof fn lemma_text_order_total(a: Seq<char>, b: Seq<char>)
    ensures
        text_before(a, b) || a == b || text_before(b, a),
        !(text_before(a, b) && a == b),
        !(text_before(a, b) && text_before(b, a)),
        !(a == b && text_before(b, a)),
    decreases a.len(),
{
    if a.len() > 0 && b.len() > 0 {
        if a[0] == b[0] {
            lemma_text_order_total(a.drop_first(), b.drop_first());
            if a.drop_first() == b.drop_first() {
                assert(a =~= seq![a[0]] + a.drop_first());
                assert(b =~= seq![b[0]] + b.drop_first());
            }
        } else {
            assert(a != b);
            assert((a[0] as int) != (b[0] as int));
        }
    } else if a.len() == 0 && b.len() == 0 {
        assert(a =~= b);
    }
}

} // verus!
