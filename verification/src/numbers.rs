//! Integers as text: reading the argument of `int(...)` when it is a string,
//! and writing an integer the way `str(...)` and `print` show it.
use vstd::prelude::*;
use crate::text::{decimal_text, digit_char, push_decimal, to_chars};
use crate::value::{raised, ExceptionType, ExceptionValue};

verus! {

/// An ASCII decimal digit.
pub open spec fn is_digit(c: char) -> bool {
    '0' <= c <= '9'
}

/// The value of a string of decimal digits.
pub open spec fn digits_value(s: Seq<char>) -> int
    decreases s.len(),
{
    if s.len() == 0 {
        0
    } else {
        digits_value(s.drop_last()) * 10 + (s.last() as int - '0' as int)
    }
}

/// A string of one or more decimal digits.
pub open spec fn all_digits(s: Seq<char>) -> bool {
    s.len() > 0 && forall|i: int| 0 <= i < s.len() ==> #[trigger] is_digit(s[i])
}

/// The integer a string spells: an optional `+` or `-`, then one or more
/// decimal digits, and nothing else (as `str::parse` reads integers).
pub open spec fn parsed_int(s: Seq<char>) -> Option<int> {
    if s.len() > 0 && (s[0] == '-' || s[0] == '+') {
        if all_digits(s.drop_first()) {
            Some(
                if s[0] == '-' {
                    -digits_value(s.drop_first())
                } else {
                    digits_value(s.drop_first())
                },
            )
        } else {
            None
        }
    } else if all_digits(s) {
        Some(digits_value(s))
    } else {
        None
    }
}

/// The text of an integer: its decimal digits, after a `-` when negative.
pub open spec fn int_text_of(i: int) -> Seq<char> {
    if i < 0 {
        seq!['-'] + decimal_text((-i) as nat)
    } else {
        decimal_text(i as nat)
    }
}

/// A longer string of digits is worth at least as much as its prefix.
proof fn lemma_digits_grow(s: Seq<char>, k: int)
    requires
        0 <= k <= s.len(),
        forall|i: int| 0 <= i < s.len() ==> #[trigger] is_digit(s[i]),
    ensures
        digits_value(s.subrange(0, k)) <= digits_value(s),
        0 <= digits_value(s.subrange(0, k)),
    decreases s.len() - k,
{
    if k < s.len() {
        lemma_digits_grow(s, k + 1);
        let p = s.subrange(0, k + 1);
        assert(p.drop_last() =~= s.subrange(0, k));
        assert(is_digit(p.last()));
    } else {
        assert(s.subrange(0, k) =~= s);
        lemma_digits_nonneg(s);
    }
}

proof fn lemma_digits_nonneg(s: Seq<char>)
    requires
        forall|i: int| 0 <= i < s.len() ==> #[trigger] is_digit(s[i]),
    ensures
        0 <= digits_value(s),
    decreases s.len(),
{
    if s.len() > 0 {
        lemma_digits_nonneg(s.drop_last());
        assert(is_digit(s.last()));
    }
}

/// The error of `int(s)` for a string that spells no 32-bit integer.
pub open spec fn invalid_literal(s: Seq<char>) -> Seq<char> {
    "invalid literal for int() with base 10: '"@ + s + "'"@
}

/// `int(s)` for a string `s`: the integer it spells, or a `ValueError` when
/// it spells none or one beyond 32 bits.
pub fn int_of_text(s: &str) -> (res: Result<i32, ExceptionValue>)
    ensures
        match parsed_int(s@) {
            Some(v) => if i32::MIN <= v <= i32::MAX {
                res == Ok::<i32, ExceptionValue>(v as i32)
            } else {
                res matches Err(e) && raised(e) == (ExceptionType::ValueError, invalid_literal(s@))
                    && e.traceback is None
            },
            None => res matches Err(e) && raised(e) == (ExceptionType::ValueError, invalid_literal(s@))
                && e.traceback is None,
        },
{
    let chars = to_chars(s);
    let n = chars.len();
    let mut start: usize = 0;
    let mut negative = false;
    if n > 0 && (chars[0] == '-' || chars[0] == '+') {
        negative = chars[0] == '-';
        start = 1;
    }
    let ghost body = chars@.subrange(start as int, n as int);
    proof {
        if start == 1 {
            assert(body =~= s@.drop_first());
        } else {
            assert(body =~= s@);
        }
    }
    let mut ok = start < n;
    let mut acc: u64 = 0;
    let mut i: usize = start;
    while ok && i < n
        invariant
            start <= i <= n,
            n == chars@.len(),
            chars@ == s@,
            body == chars@.subrange(start as int, n as int),
            ok ==> forall|j: int| start <= j < i ==> #[trigger] is_digit(chars@[j]),
            ok ==> acc == digits_value(chars@.subrange(start as int, i as int)),
            ok ==> acc <= 2147483648,
            ok ==> start < n,
            !ok ==> (start == n || !all_digits(body) || digits_value(body) > 2147483648),
        decreases n - i,
    {
        let c = chars[i];
        let ghost prefix = chars@.subrange(start as int, i + 1);
        proof {
            assert(prefix.drop_last() =~= chars@.subrange(start as int, i as int));
        }
        if !('0' <= c && c <= '9') {
            ok = false;
            proof {
                assert(!is_digit(body[i - start]));
            }
        } else {
            let d = (c as u64) - ('0' as u64);
            let next = acc * 10 + d;
            if next > 2147483648 {
                ok = false;
                proof {
                    if all_digits(body) {
                        assert(prefix =~= body.subrange(0, i + 1 - start));
                        lemma_digits_grow(body, i + 1 - start);
                    }
                }
            } else {
                acc = next;
            }
        }
        i = i + 1;
    }
    proof {
        if ok {
            assert(chars@.subrange(start as int, i as int) =~= body);
            assert forall|j: int| 0 <= j < body.len() implies #[trigger] is_digit(body[j]) by {
                assert(body[j] == chars@[start + j]);
            }
            assert(all_digits(body));
            assert(acc == digits_value(body));
            if start == 1 {
                assert(s@.len() > 0 && (s@[0] == '-' || s@[0] == '+'));
                assert(negative == (s@[0] == '-'));
                assert(parsed_int(s@) == Some(if negative { -digits_value(body) } else { digits_value(body) }));
            } else {
                assert(!(s@.len() > 0 && (s@[0] == '-' || s@[0] == '+')));
                assert(!negative);
                assert(parsed_int(s@) == Some(digits_value(body)));
            }
        }
    }
    if ok {
        let value: i64 = if negative {
            -(acc as i64)
        } else {
            acc as i64
        };
        if value >= -2147483648 && value <= 2147483647 {
            return Ok(value as i32);
        }
    }
    let mut m = String::from_str("invalid literal for int() with base 10: '");
    m.append(s);
    m.append("'");
    Err(ExceptionValue::new(ExceptionType::ValueError, m))
}

/// The text of an integer, as `str(i)` shows it.
pub fn int_text(i: i32) -> (res: String)
    ensures
        res@ == int_text_of(i as int),
{
    let mut s = String::new();
    if i < 0 {
        s.append("-");
        let magnitude: u64 = (-(i as i64)) as u64;
        push_decimal(&mut s, magnitude);
        proof {
            reveal_strlit("-");
            assert(s@ =~= int_text_of(i as int));
        }
    } else {
        push_decimal(&mut s, i as u64);
        assert(s@ =~= int_text_of(i as int));
    }
    s
}

proof fn lemma_decimal_digits(n: nat)
    ensures
        all_digits(decimal_text(n)),
        digits_value(decimal_text(n)) == n,
    decreases n,
{
    if n >= 10 {
        lemma_decimal_digits(n / 10);
        let t = decimal_text(n);
        assert(t.drop_last() =~= decimal_text(n / 10));
        assert(t.last() == digit_char((n % 10) as nat));
        lemma_digit_char((n % 10) as nat);
        assert(digits_value(t) == digits_value(t.drop_last()) * 10 + (t.last() as int - '0' as int));
        assert((n / 10) * 10 + n % 10 == n);
        assert forall|i: int| 0 <= i < t.len() implies #[trigger] is_digit(t[i]) by {
            if i < t.len() - 1 {
                assert(t[i] == decimal_text(n / 10)[i]);
            }
        }
    } else {
        lemma_digit_char(n);
        let t = decimal_text(n);
        assert(t.drop_last() =~= Seq::<char>::empty());
        assert(digits_value(t) == digits_value(t.drop_last()) * 10 + (t.last() as int - '0' as int));
    }
}

proof fn lemma_digit_char(d: nat)
    requires
        d < 10,
    ensures
        is_digit(digit_char(d)),
        digit_char(d) as int - '0' as int == d,
{
}

/// Reading back the text of an integer gives the integer.
pub proof fn lemma_int_text_roundtrip(i: int)
    ensures
        parsed_int(int_text_of(i)) == Some(i),
{
    if i < 0 {
        let m = (-i) as nat;
        lemma_decimal_digits(m);
        let t = int_text_of(i);
        assert(t.drop_first() =~= decimal_text(m));
    } else {
        lemma_decimal_digits(i as nat);
        assert(is_digit(decimal_text(i as nat)[0]));
        assert(decimal_text(i as nat)[0] != '-' && decimal_text(i as nat)[0] != '+');
    }
}

} // verus!
