//! Python indexing and slice semantics: `seq[i]` and `seq[start:stop:step]`.
use vstd::prelude::*;

verus! {

/// The smaller of two integers.
pub open spec fn min_int(a: int, b: int) -> int {
    if a <= b {
        a
    } else {
        b
    }
}

/// The larger of two integers.
pub open spec fn max_int(a: int, b: int) -> int {
    if a >= b {
        a
    } else {
        b
    }
}

/// The concrete `(start, stop, step)` of a slice over a sequence of `len`
/// items: missing bounds take the defaults for the direction of the step,
/// negative bounds count from the end, and bounds beyond the ends are
/// clamped. A zero step gives the empty slice `(0, 0, 1)`.
pub open spec fn slice_bounds(start: Option<i32>, stop: Option<i32>, step: Option<i32>, len: int) -> (
    int,
    int,
    int,
) {
    let step = match step {
        Some(s) => s as int,
        None => 1,
    };
    if step == 0 {
        (0, 0, 1)
    } else {
        let default_start = if step > 0 {
            0
        } else {
            len - 1
        };
        let default_stop = if step > 0 {
            len
        } else {
            -len - 1
        };
        let s = match start {
            Some(v) => v as int,
            None => default_start,
        };
        let e = match stop {
            Some(v) => v as int,
            None => default_stop,
        };
        let s = if s < 0 {
            max_int(s + len, 0)
        } else {
            min_int(s, len)
        };
        let e = if e < 0 {
            max_int(e + len, -1)
        } else {
            min_int(e, len)
        };
        (s, e, step)
    }
}

/// Resolves the bounds of a slice over a sequence of `length` items.
pub fn compute_slice_indices(
    start: Option<i32>,
    stop: Option<i32>,
    step: Option<i32>,
    length: usize,
) -> (res: (i32, i32, i32))
    requires
        length <= i32::MAX,
    ensures
        (res.0 as int, res.1 as int, res.2 as int) == slice_bounds(start, stop, step, length as int),
{
    let len = length as i32;
    let step = match step {
        Some(s) => s,
        None => 1,
    };
    if step == 0 {
        return (0, 0, 1);
    }
    let (default_start, default_stop) = if step > 0 {
        (0, len)
    } else {
        (len - 1, -len - 1)
    };
    let start = match start {
        Some(v) => v,
        None => default_start,
    };
    let stop = match stop {
        Some(v) => v,
        None => default_stop,
    };
    let start = if start < 0 {
        if start + len > 0 {
            start + len
        } else {
            0
        }
    } else if start < len {
        start
    } else {
        len
    };
    let stop = if stop < 0 {
        if stop + len > -1 {
            stop + len
        } else {
            -1
        }
    } else if stop < len {
        stop
    } else {
        len
    };
    (start, stop, step)
}

/// The positions that a slice with a positive step visits, in order: from
/// `i` on, every `step`-th position below `end`, skipping negative ones.
pub open spec fn forward_positions(i: int, end: int, step: int) -> Seq<int>
    decreases max_int(end - i, 0),
{
    if step <= 0 || i >= end {
        seq![]
    } else {
        (if i >= 0 {
            seq![i]
        } else {
            seq![]
        }) + forward_positions(i + step, end, step)
    }
}

/// The positions that a slice with a negative step visits, in order: from
/// `i` down, every `-step`-th position above `stop` and not below 0,
/// skipping those at or beyond `len`.
pub open spec fn backward_positions(i: int, stop: int, step: int, len: int) -> Seq<int>
    decreases max_int(i + 1, 0),
{
    if step >= 0 || i <= stop || i < 0 {
        seq![]
    } else {
        (if i < len {
            seq![i]
        } else {
            seq![]
        }) + backward_positions(i + step, stop, step, len)
    }
}

/// The positions of a sequence of `len` items that the resolved slice
/// `(start, stop, step)` selects, in order.
pub open spec fn slice_positions(start: int, stop: int, step: int, len: int) -> Seq<int> {
    if step > 0 {
        forward_positions(start, min_int(stop, len), step)
    } else {
        backward_positions(start, stop, step, len)
    }
}

/// The arithmetic progression `start, start + step, start + 2 * step, ...`
/// of the positions strictly before `stop` (below it for a positive step,
/// above it for a negative one).
pub open spec fn progression(start: int, stop: int, step: int) -> Seq<int>
    decreases max_int(if step > 0 { stop - start } else { start - stop }, 0),
{
    if step > 0 && start < stop {
        seq![start] + progression(start + step, stop, step)
    } else if step < 0 && start > stop {
        seq![start] + progression(start + step, stop, step)
    } else {
        seq![]
    }
}

/// The positions of a sequence of `len` items.
pub open spec fn valid_position(len: int) -> spec_fn(int) -> bool {
    |i: int| 0 <= i < len
}

proof fn lemma_filter_head(i: int, rest: Seq<int>, len: int)
    ensures
        (seq![i] + rest).filter(valid_position(len)) == (if 0 <= i < len {
            seq![i]
        } else {
            seq![]
        }) + rest.filter(valid_position(len)),
{
    Seq::filter_distributes_over_add(seq![i], rest, valid_position(len));
    reveal_with_fuel(Seq::filter, 2);
    assert(seq![i].drop_last() =~= Seq::<int>::empty());
}

proof fn lemma_forward_is_progression(i: int, stop: int, step: int, len: int)
    requires
        step > 0,
    ensures
        forward_positions(i, min_int(stop, len), step) == progression(i, stop, step).filter(valid_position(len)),
    decreases max_int(stop - i, 0),
{
    if i < stop {
        lemma_forward_is_progression(i + step, stop, step, len);
        lemma_filter_head(i, progression(i + step, stop, step), len);
        if i >= len {
            assert(forward_positions(i + step, min_int(stop, len), step) =~= Seq::<int>::empty());
            assert(seq![] + Seq::<int>::empty() =~= Seq::<int>::empty());
        }
    } else {
        reveal_with_fuel(Seq::filter, 1);
    }
}

proof fn lemma_backward_is_progression(i: int, stop: int, step: int, len: int)
    requires
        step < 0,
    ensures
        backward_positions(i, stop, step, len) == progression(i, stop, step).filter(valid_position(len)),
    decreases max_int(i - stop, 0),
{
    if i > stop {
        lemma_backward_is_progression(i + step, stop, step, len);
        lemma_filter_head(i, progression(i + step, stop, step), len);
        if i < 0 {
            assert(backward_positions(i + step, stop, step, len) =~= Seq::<int>::empty());
            assert(seq![] + Seq::<int>::empty() =~= Seq::<int>::empty());
        }
    } else {
        reveal_with_fuel(Seq::filter, 1);
    }
}

/// A slice visits exactly Python's positions: the progression from `start`
/// by `step` strictly before `stop`, keeping only the valid positions.
pub proof fn lemma_slice_positions_are_progression(start: int, stop: int, step: int, len: int)
    requires
        step != 0,
    ensures
        slice_positions(start, stop, step, len) == progression(start, stop, step).filter(valid_position(len)),
{
    if step > 0 {
        lemma_forward_is_progression(start, stop, step, len);
    } else {
        lemma_backward_is_progression(start, stop, step, len);
    }
}

/// Every selected position is a valid index.
pub proof fn lemma_forward_positions_in_range(i: int, end: int, step: int, len: int)
    requires
        end <= len,
    ensures
        forall|k: int|
            0 <= k < forward_positions(i, end, step).len() ==> 0 <= #[trigger] forward_positions(
                i,
                end,
                step,
            )[k] < len,
    decreases max_int(end - i, 0),
{
    if !(step <= 0 || i >= end) {
        lemma_forward_positions_in_range(i + step, end, step, len);
        let head: Seq<int> = if i >= 0 {
            seq![i]
        } else {
            seq![]
        };
        let rest = forward_positions(i + step, end, step);
        assert forall|k: int|
            0 <= k < forward_positions(i, end, step).len() implies 0 <= #[trigger] forward_positions(
            i,
            end,
            step,
        )[k] < len by {
            if k < head.len() {
                assert(forward_positions(i, end, step)[k] == head[k]);
            } else {
                assert(forward_positions(i, end, step)[k] == rest[k - head.len()]);
            }
        }
    }
}

/// Every selected position is a valid index.
pub proof fn lemma_backward_positions_in_range(i: int, stop: int, step: int, len: int)
    ensures
        forall|k: int|
            0 <= k < backward_positions(i, stop, step, len).len() ==> 0 <= #[trigger] backward_positions(
                i,
                stop,
                step,
                len,
            )[k] < len,
    decreases max_int(i + 1, 0),
{
    if !(step >= 0 || i <= stop || i < 0) {
        lemma_backward_positions_in_range(i + step, stop, step, len);
        let head: Seq<int> = if i < len {
            seq![i]
        } else {
            seq![]
        };
        let rest = backward_positions(i + step, stop, step, len);
        assert forall|k: int|
            0 <= k < backward_positions(i, stop, step, len).len() implies 0
            <= #[trigger] backward_positions(i, stop, step, len)[k] < len by {
            if k < head.len() {
                assert(backward_positions(i, stop, step, len)[k] == head[k]);
            } else {
                assert(backward_positions(i, stop, step, len)[k] == rest[k - head.len()]);
            }
        }
    }
}

/// The items at the given positions, in order.
pub open spec fn pick<T>(items: Seq<T>, positions: Seq<int>) -> Seq<T> {
    positions.map_values(|p: int| items[p])
}

/// The items that `items[start:stop:step]` selects once the bounds are
/// resolved.
pub open spec fn spec_slice<T>(items: Seq<T>, start: int, stop: int, step: int) -> Seq<T> {
    pick(items, slice_positions(start, stop, step, items.len() as int))
}

/// The items of `items` that the resolved slice `(start, stop, step)`
/// selects; each is a clone of the item at its position.
pub fn slice_sequence<T: Clone>(items: &[T], start: i32, stop: i32, step: i32) -> (res: Vec<T>)
    requires
        step != 0,
        items@.len() <= i32::MAX,
    ensures
        res@.len() == slice_positions(start as int, stop as int, step as int, items@.len() as int).len(),
        forall|k: int|
            #![trigger res@[k]]
            0 <= k < res@.len() ==> cloned::<T>(
                items@[slice_positions(start as int, stop as int, step as int, items@.len() as int)[k]],
                res@[k],
            ),
{
    let ghost len = items@.len() as int;
    let ghost all = slice_positions(start as int, stop as int, step as int, len);
    let mut result: Vec<T> = Vec::new();
    let n = items.len() as i64;
    if step > 0 {
        let ghost end = min_int(stop as int, len);
        let mut i: i64 = start as i64;
        while i < stop as i64 && i < n
            invariant
                step > 0,
                n == len,
                len == items@.len(),
                len <= i32::MAX,
                end == min_int(stop as int, len),
                all == forward_positions(start as int, end, step as int),
                i <= i32::MAX + i32::MAX,
                i >= i32::MIN,
                ({
                    let done = all.subrange(0, result@.len() as int);
                    &&& result@.len() <= all.len()
                    &&& all == done + forward_positions(i as int, end, step as int)
                    &&& forall|k: int|
                        #![trigger result@[k]]
                        0 <= k < result@.len() ==> cloned::<T>(items@[done[k]], result@[k])
                }),
            decreases max_int(end - i, 0),
        {
            let ghost before = result@;
            let ghost rest = forward_positions(i as int, end, step as int);
            assert(rest == (if i >= 0 {
                seq![i as int]
            } else {
                seq![]
            }) + forward_positions(i + step, end, step as int));
            if i >= 0 {
                assert(0 <= i < items@.len());
                let item = items[i as usize].clone();
                result.push(item);
                assert(all[before.len() as int] == i);
                assert(all.subrange(0, result@.len() as int) =~= all.subrange(
                    0,
                    before.len() as int,
                ).push(i as int));
                assert(all =~= all.subrange(0, result@.len() as int) + forward_positions(
                    i + step,
                    end,
                    step as int,
                ));
            } else {
                assert(all =~= all.subrange(0, result@.len() as int) + forward_positions(
                    i + step,
                    end,
                    step as int,
                ));
            }
            i = i + step as i64;
        }
        assert(forward_positions(i as int, end, step as int) == Seq::<int>::empty());
        assert(all.subrange(0, result@.len() as int) =~= all);
    } else {
        let mut i: i64 = start as i64;
        while i > stop as i64 && i >= 0
            invariant
                step < 0,
                n == len,
                len == items@.len(),
                len <= i32::MAX,
                all == backward_positions(start as int, stop as int, step as int, len),
                i <= i32::MAX,
                i >= i32::MIN + i32::MIN,
                ({
                    let done = all.subrange(0, result@.len() as int);
                    &&& result@.len() <= all.len()
                    &&& all == done + backward_positions(i as int, stop as int, step as int, len)
                    &&& forall|k: int|
                        #![trigger result@[k]]
                        0 <= k < result@.len() ==> cloned::<T>(items@[done[k]], result@[k])
                }),
            decreases max_int(i + 1, 0),
        {
            let ghost before = result@;
            let ghost rest = backward_positions(i as int, stop as int, step as int, len);
            assert(rest == (if i < len {
                seq![i as int]
            } else {
                seq![]
            }) + backward_positions(i + step, stop as int, step as int, len));
            if i < n {
                assert(0 <= i < items@.len());
                let item = items[i as usize].clone();
                result.push(item);
                assert(all[before.len() as int] == i);
                assert(all.subrange(0, result@.len() as int) =~= all.subrange(
                    0,
                    before.len() as int,
                ).push(i as int));
                assert(all =~= all.subrange(0, result@.len() as int) + backward_positions(
                    i + step,
                    stop as int,
                    step as int,
                    len,
                ));
            } else {
                assert(all =~= all.subrange(0, result@.len() as int) + backward_positions(
                    i + step,
                    stop as int,
                    step as int,
                    len,
                ));
            }
            i = i + step as i64;
        }
        assert(backward_positions(i as int, stop as int, step as int, len) == Seq::<int>::empty());
        assert(all.subrange(0, result@.len() as int) =~= all);
    }
    result
}

proof fn lemma_forward_unit(i: int, len: int)
    requires
        0 <= i <= len,
    ensures
        forward_positions(i, len, 1) =~= Seq::new((len - i) as nat, |k: int| i + k),
    decreases len - i,
{
    if i < len {
        lemma_forward_unit(i + 1, len);
    }
}

proof fn lemma_backward_unit(i: int, len: int)
    requires
        -1 <= i < len,
    ensures
        backward_positions(i, -1, -1, len) =~= Seq::new((i + 1) as nat, |k: int| i - k),
    decreases i + 1,
{
    if i >= 0 {
        lemma_backward_unit(i - 1, len);
    }
}

/// `seq[:]` (and `seq[::1]`) selects every item, in order.
pub proof fn lemma_full_slice<T>(items: Seq<T>)
    requires
        items.len() <= i32::MAX,
    ensures
        slice_bounds(None, None, None, items.len() as int) == (0int, items.len() as int, 1int),
        spec_slice(items, 0, items.len() as int, 1) == items,
{
    lemma_forward_unit(0, items.len() as int);
    assert(spec_slice(items, 0, items.len() as int, 1) =~= items);
}

/// Whatever the stop and the (non-zero) step, a given start index resolves
/// to a position between 0 and the length: a non-negative one is kept when
/// it is within the sequence and becomes the length when beyond it; a
/// negative one counts from the end and becomes 0 when before the start.
pub proof fn lemma_start_resolves_within(k: i32, stop: Option<i32>, step: Option<i32>, len: int)
    requires
        len >= 0,
        step != Some(0i32),
    ensures
        0 <= slice_bounds(Some(k), stop, step, len).0 <= len,
        k >= 0 && k <= len ==> slice_bounds(Some(k), stop, step, len).0 == k,
        k >= 0 && k > len ==> slice_bounds(Some(k), stop, step, len).0 == len,
        k < 0 && k + len >= 0 ==> slice_bounds(Some(k), stop, step, len).0 == k + len,
        k < 0 && k + len < 0 ==> slice_bounds(Some(k), stop, step, len).0 == 0,
{
}

/// A given stop index resolves the same way, except that a negative one
/// before the start becomes -1 (so that a backward slice can reach position
/// 0); a missing stop is the end for a forward slice and -1 for a backward
/// one, and a missing start is 0 forward and the last position (0 for an
/// empty sequence) backward.
pub proof fn lemma_stop_and_defaults_resolve(start: Option<i32>, k: i32, step: Option<i32>, len: int)
    requires
        len >= 0,
        step != Some(0i32),
    ensures
        k >= 0 && k <= len ==> slice_bounds(start, Some(k), step, len).1 == k,
        k >= 0 && k > len ==> slice_bounds(start, Some(k), step, len).1 == len,
        k < 0 && k + len >= -1 ==> slice_bounds(start, Some(k), step, len).1 == k + len,
        k < 0 && k + len < -1 ==> slice_bounds(start, Some(k), step, len).1 == -1,
        (step is None || step->0 > 0) ==> slice_bounds(None, None, step, len).0 == 0
            && slice_bounds(None, None, step, len).1 == len,
        (step matches Some(st) && st < 0) ==> slice_bounds(None, None, step, len).0 == max_int(len - 1, 0)
            && slice_bounds(None, None, step, len).1 == -1,
{
}

/// `seq[k:]` for an index `k`: a start at or beyond the end is clamped to
/// the end, a negative one counts from the end (and is clamped to 0), and the
/// slice is exactly the items from that position on. So `seq[k:]` is empty
/// whenever `k >= len(seq)`, and `seq[-k:]` holds the last `k` items.
pub proof fn lemma_slice_from<T>(items: Seq<T>, k: i32)
    requires
        items.len() <= i32::MAX,
    ensures
        ({
            let len = items.len() as int;
            let from = if k >= 0 {
                if k <= len { k as int } else { len }
            } else if k + len >= 0 {
                k + len
            } else {
                0
            };
            let (s, e, st) = slice_bounds(Some(k), None, None, len);
            &&& s == from
            &&& e == len
            &&& st == 1
            &&& spec_slice(items, s, e, st) == items.subrange(from, len)
            &&& k >= len ==> spec_slice(items, s, e, st).len() == 0
        }),
{
    let len = items.len() as int;
    let (s, e, st) = slice_bounds(Some(k), None, None, len);
    lemma_forward_unit(s, len);
    assert(min_int(e, len) == len);
    assert(spec_slice(items, s, e, st) =~= items.subrange(s, len));
}

/// `seq[::-1]` selects every item, last first.
pub proof fn lemma_reversed_slice<T>(items: Seq<T>)
    requires
        items.len() <= i32::MAX,
    ensures
        slice_bounds(None, None, Some(-1i32), items.len() as int) == (
            max_int(items.len() - 1, 0),
            -1int,
            -1int,
        ),
        spec_slice(items, max_int(items.len() - 1, 0), -1, -1) == items.reverse(),
{
    let n = items.len() as int;
    if n > 0 {
        lemma_backward_unit(n - 1, n);
    } else {
        assert(backward_positions(-1, -1, -1, 0) == Seq::<int>::empty());
    }
    assert(spec_slice(items, max_int(n - 1, 0), -1, -1) =~= items.reverse());
}

/// The position that index `idx` names in a list of `len` items: a
/// negative index counts from the end; `None` when it falls outside.
pub open spec fn position_of(len: int, idx: int) -> Option<int> {
    let actual = if idx < 0 {
        len + idx
    } else {
        idx
    };
    if 0 <= actual < len {
        Some(actual)
    } else {
        None
    }
}

/// The position that `idx` names in a list of `len` items (the length as
/// the interpreter holds it, a 32-bit integer).
pub fn list_position(len: i32, idx: i32) -> (res: Option<usize>)
    requires
        idx < 0 ==> i32::MIN <= len + idx,
    ensures
        match position_of(len as int, idx as int) {
            Some(p) => res == Some(p as usize),
            None => res is None,
        },
{
    let actual = if idx < 0 {
        len + idx
    } else {
        idx
    };
    if actual < 0 || actual >= len {
        None
    } else {
        Some(actual as usize)
    }
}

} // verus!
