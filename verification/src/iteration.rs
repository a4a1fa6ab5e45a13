//! Iteration: `range(...)` objects, and stepping through a list while
//! noticing that it changed.
use vstd::prelude::*;
use crate::value::{next_version, raised, ExceptionType, ExceptionValue, ListValue, Raised};

verus! {

/// Where a `range` iterator stands: the next value, the bound it stops
/// before, and the step, which is never 0.
#[derive(Clone, Copy, Debug)]
pub struct RangeIter {
    pub current: i32,
    pub stop: i32,
    pub step: i32,
}

impl RangeIter {
    /// Whether the range has a value left: it counts up below `stop`, or
    /// down above it.
    pub open spec fn has_next(self) -> bool {
        (self.step > 0 && self.current < self.stop) || (self.step < 0 && self.current > self.stop)
    }

    /// The next value, if any, and the range moved past it.
    pub fn next(&mut self) -> (res: Option<i32>)
        requires
            old(self).has_next() ==> i32::MIN <= old(self).current + old(self).step <= i32::MAX,
        ensures
            old(self).has_next() ==> res == Some(old(self).current) && *final(self) == (RangeIter {
                current: (old(self).current + old(self).step) as i32,
                ..*old(self)
            }),
            !old(self).has_next() ==> res is None && *final(self) == *old(self),
    {
        if (self.step > 0 && self.current < self.stop) || (self.step < 0 && self.current > self.stop) {
            let value = self.current;
            self.current = self.current + self.step;
            Some(value)
        } else {
            None
        }
    }
}

/// How far a range still is from its bound, as a measure of progress.
pub open spec fn distance(current: int, stop: int, step: int) -> nat {
    if step > 0 && current < stop {
        (stop - current) as nat
    } else if step < 0 && current > stop {
        (current - stop) as nat
    } else {
        0
    }
}

/// The values that stepping from `current` by `step` while before `stop`
/// gives, in order, as `RangeIter::next` gives them.
pub open spec fn stepped(current: int, stop: int, step: int) -> Seq<int>
    decreases distance(current, stop, step),
{
    if (step > 0 && current < stop) || (step < 0 && current > stop) {
        seq![current] + stepped(current + step, stop, step)
    } else {
        seq![]
    }
}

/// The number of values of `range(start, stop, step)`.
pub open spec fn range_len(start: int, stop: int, step: int) -> nat {
    if step > 0 && stop > start {
        ((stop - start + step - 1) / step) as nat
    } else if step < 0 && start > stop {
        ((start - stop - step - 1) / (-step)) as nat
    } else {
        0
    }
}

/// The values of `range(start, stop, step)`: `start + k * step` for each
/// `k` below the count.
pub open spec fn range_values(start: int, stop: int, step: int) -> Seq<int> {
    Seq::new(range_len(start, stop, step), |k: int| start + k * step)
}

proof fn lemma_range_len_step(c: int, stop: int, s: int)
    requires
        s != 0,
        (s > 0 && c < stop) || (s < 0 && c > stop),
    ensures
        range_len(c, stop, s) == range_len(c + s, stop, s) + 1,
{
    if s > 0 {
        let x = stop - c;
        if x > s {
            assert((x + s - 1) / s == (x - s + s - 1) / s + 1) by (nonlinear_arith)
                requires
                    s > 0,
                    x > s,
            {
                assert(x + s - 1 == (x - s + s - 1) + s);
            }
        } else {
            assert((x + s - 1) / s == 1) by (nonlinear_arith)
                requires
                    s > 0,
                    0 < x <= s,
            {
            }
        }
    } else {
        let t = -s;
        let x = c - stop;
        if x > t {
            assert((x + t - 1) / t == (x - t + t - 1) / t + 1) by (nonlinear_arith)
                requires
                    t > 0,
                    x > t,
            {
                assert(x + t - 1 == (x - t + t - 1) + t);
            }
        } else {
            assert((x + t - 1) / t == 1) by (nonlinear_arith)
                requires
                    t > 0,
                    0 < x <= t,
            {
            }
        }
        assert(c - stop - s - 1 == x + t - 1);
        assert(c + s - stop - s - 1 == x - t + t - 1);
    }
}

/// Stepping a range from `start` by a nonzero `step` while before `stop`
/// gives exactly the values of `range(start, stop, step)`: `start`,
/// `start + step`, ... for as many as fit before `stop`.
pub proof fn lemma_range_steps(start: int, stop: int, step: int)
    requires
        step != 0,
    ensures
        stepped(start, stop, step) == range_values(start, stop, step),
    decreases distance(start, stop, step),
{
    if (step > 0 && start < stop) || (step < 0 && start > stop) {
        lemma_range_steps(start + step, stop, step);
        lemma_range_len_step(start, stop, step);
        let n = range_len(start + step, stop, step);
        assert forall|k: int| 0 <= k < n implies #[trigger] range_values(start + step, stop, step)[k]
            == start + (k + 1) * step by {
            assert((start + step) + k * step == start + (k + 1) * step) by (nonlinear_arith);
        }
        let whole = range_values(start, stop, step);
        let tail = range_values(start + step, stop, step);
        assert(stepped(start, stop, step) == seq![start] + tail);
        assert(whole.len() == n + 1);
        assert forall|k: int| 0 <= k < n + 1 implies #[trigger] whole[k] == (seq![start] + tail)[k] by {
            if k == 0 {
                assert(start + 0 * step == start) by (nonlinear_arith);
            } else {
                assert(tail[k - 1] == start + (k - 1 + 1) * step);
            }
        }
        assert(whole =~= seq![start] + tail);
    } else {
        assert(range_values(start, stop, step) =~= Seq::<int>::empty());
    }
}

/// Stepping a range iterator walks `range(start, stop, step)`: it has a
/// value left exactly when the values of the range from its position on are
/// not exhausted, the value it yields is the first of them, and the position
/// it moves to holds the rest. So `range(3, 0, -1)` yields 3, 2, 1 and stops
/// before 0.
pub proof fn lemma_next_follows_range_values(it: RangeIter)
    requires
        it.step != 0,
    ensures
        it.has_next() <==> range_values(it.current as int, it.stop as int, it.step as int).len() > 0,
        it.has_next() ==> range_values(it.current as int, it.stop as int, it.step as int) == seq![
            it.current as int,
        ] + range_values(it.current + it.step, it.stop as int, it.step as int),
{
    let c = it.current as int;
    let e = it.stop as int;
    let s = it.step as int;
    lemma_range_steps(c, e, s);
    lemma_range_steps(c + s, e, s);
}

/// `range(start, stop, step)`: a `ValueError` for a zero step.
pub fn make_range(start: i32, stop: i32, step: i32) -> (res: Result<RangeIter, ExceptionValue>)
    ensures
        step == 0 ==> (res matches Err(e) && raised(e) == (
            ExceptionType::ValueError,
            "range() arg 3 must not be zero"@,
        ) && e.traceback is None),
        step != 0 ==> res == Ok::<RangeIter, ExceptionValue>(RangeIter { current: start, stop, step }),
{
    if step == 0 {
        return Err(
            ExceptionValue::new(
                ExceptionType::ValueError,
                String::from_str("range() arg 3 must not be zero"),
            ),
        );
    }
    Ok(RangeIter { current: start, stop, step })
}

/// How many arguments a `range` call left on a stack of `stack_len` values.
/// The compiled call pushes the count, then the arguments, so the count
/// stands 2, 3 or 4 places from the top; `at4`, `at3` and `at2` are the
/// integers, if any, at those places. Three arguments are tried first, then
/// two, then one. The layout does not always decide: an integer left below
/// the call can look like a count (an `Int(3)` under `range(1, 10)` reads as
/// three arguments), and the first matching place is taken.
pub open spec fn range_arity_spec(stack_len: nat, at4: Option<i32>, at3: Option<i32>, at2: Option<i32>) -> Result<
    nat,
    Raised,
> {
    if stack_len < 2 {
        Err((ExceptionType::RuntimeError, "invalid range() call: stack too small"@))
    } else if stack_len >= 4 && at4 == Some(3i32) {
        Ok(3)
    } else if stack_len >= 3 && at3 == Some(2i32) {
        Ok(2)
    } else if at2 == Some(1i32) {
        Ok(1)
    } else {
        Err((ExceptionType::RuntimeError, "invalid range() call: could not find argument count"@))
    }
}

/// The number of arguments of a `range` call, as above.
pub fn range_arity(stack_len: usize, at4: Option<i32>, at3: Option<i32>, at2: Option<i32>) -> (res: Result<
    usize,
    ExceptionValue,
>)
    ensures
        match range_arity_spec(stack_len as nat, at4, at3, at2) {
            Ok(n) => res matches Ok(k) && k == n,
            Err(r) => res matches Err(e) && raised(e) == r && e.traceback is None,
        },
{
    if stack_len < 2 {
        return Err(
            ExceptionValue::new(
                ExceptionType::RuntimeError,
                String::from_str("invalid range() call: stack too small"),
            ),
        );
    }
    if stack_len >= 4 && at4 == Some(3i32) {
        Ok(3)
    } else if stack_len >= 3 && at3 == Some(2i32) {
        Ok(2)
    } else if at2 == Some(1i32) {
        Ok(1)
    } else {
        Err(
            ExceptionValue::new(
                ExceptionType::RuntimeError,
                String::from_str("invalid range() call: could not find argument count"),
            ),
        )
    }
}

/// What stepping an iterator that was made at version `iter_version` does
/// to a list of `len` items now at version `version`, from position
/// `index`: an `IteratorError` when the list changed, else the position of
/// the next item, or `None` at the end.
pub open spec fn list_step(len: nat, version: usize, index: usize, iter_version: usize) -> Result<
    Option<usize>,
    Raised,
> {
    if version != iter_version {
        Err((ExceptionType::IteratorError, "list modified during iteration"@))
    } else if index < len {
        Ok(Some(index))
    } else {
        Ok(None)
    }
}

/// Steps an iterator over `list` that stands at `index` and was made at
/// version `iter_version`.
pub fn list_next<T>(list: &ListValue<T>, index: usize, iter_version: usize) -> (res: Result<
    Option<usize>,
    ExceptionValue,
>)
    ensures
        match list_step(list.items@.len(), list.version, index, iter_version) {
            Ok(p) => res matches Ok(q) && q == p,
            Err(r) => res matches Err(e) && raised(e) == r && e.traceback is None,
        },
{
    if list.version != iter_version {
        return Err(
            ExceptionValue::new(
                ExceptionType::IteratorError,
                String::from_str("list modified during iteration"),
            ),
        );
    }
    if index < list.items.len() {
        Ok(Some(index))
    } else {
        Ok(None)
    }
}

/// An iterator notices every modification of its list: once the list has
/// been modified (its version moved on), stepping an iterator made before
/// raises an `IteratorError`, wherever the iterator stands.
pub proof fn lemma_modification_is_noticed(len: nat, version: usize, index: usize)
    ensures
        list_step(len, next_version(version), index, version) is Err,
{
}

} // verus!
