//! Calling functions and unpacking sequences: taking values off the value
//! stack, and checking that a function gets as many arguments as it has
//! parameters and that an unpacked sequence has as many items as targets.
use vstd::prelude::*;
use crate::text::{decimal_text, push_decimal};
use crate::value::{raised, ExceptionType, ExceptionValue, Raised};

verus! {

/// The error for popping an empty stack.
pub open spec fn underflow() -> Raised {
    (ExceptionType::RuntimeError, "Stack underflow"@)
}

/// Takes the top `count` values off the stack, in the order they were
/// pushed. When the stack holds fewer, all of it is taken off and a
/// `RuntimeError` is raised.
pub fn pop_args<V>(stack: &mut Vec<V>, count: usize) -> (res: Result<Vec<V>, ExceptionValue>)
    ensures
        count <= old(stack)@.len() ==> {
            let keep = old(stack)@.len() - count;
            &&& res matches Ok(args) && args@ == old(stack)@.subrange(keep, old(stack)@.len() as int)
            &&& final(stack)@ == old(stack)@.subrange(0, keep)
        },
        count > old(stack)@.len() ==> {
            &&& res matches Err(e) && raised(e) == underflow() && e.traceback is None
            &&& final(stack)@.len() == 0
        },
{
    let ghost start = stack@;
    let n = stack.len();
    if count > n {
        stack.clear();
        return Err(ExceptionValue::new(ExceptionType::RuntimeError, String::from_str("Stack underflow")));
    }
    let keep = n - count;
    let mut args: Vec<V> = Vec::new();
    while stack.len() > keep
        invariant
            keep <= stack@.len() <= n,
            n == start.len(),
            keep == n - count,
            stack@ == start.subrange(0, stack@.len() as int),
            args@ == start.subrange(stack@.len() as int, n as int).reverse(),
        decreases stack@.len(),
    {
        let ghost before = stack@;
        let v = stack.pop().unwrap();
        proof {
            assert(stack@ =~= start.subrange(0, stack@.len() as int));
        }
        args.push(v);
        assert(args@ =~= start.subrange(stack@.len() as int, n as int).reverse());
    }
    let mut ordered: Vec<V> = Vec::new();
    while args.len() > 0
        invariant
            ordered@ + args@.reverse() == start.subrange(keep as int, n as int),
        decreases args@.len(),
    {
        let ghost before = args@;
        let v = args.pop().unwrap();
        proof {
            assert(before =~= args@.push(v));
            assert(before.reverse() =~= seq![v] + args@.reverse());
            assert(ordered@.push(v) + args@.reverse() =~= ordered@ + before.reverse());
        }
        ordered.push(v);
    }
    assert(ordered@ =~= start.subrange(keep as int, n as int));
    Ok(ordered)
}

/// The error for calling `name`, which has `params` parameters, with
/// `given` arguments.
pub open spec fn arity_message(name: Seq<char>, params: nat, given: nat) -> Seq<char> {
    name + "() takes "@ + decimal_text(params) + " positional argument"@ + (if params == 1 {
        ""@
    } else {
        "s"@
    }) + " but "@ + decimal_text(given) + " "@ + (if given == 1 {
        "was"@
    } else {
        "were"@
    }) + " given"@
}

/// Checks that `name`, which has `params` parameters, gets `given`
/// arguments: a `TypeError` otherwise.
pub fn check_arity(name: &str, params: usize, given: usize) -> (res: Result<(), ExceptionValue>)
    ensures
        given == params ==> res is Ok,
        given != params ==> (res matches Err(e) && raised(e) == (
            ExceptionType::TypeError,
            arity_message(name@, params as nat, given as nat),
        ) && e.traceback is None),
{
    if given == params {
        return Ok(());
    }
    let mut m = String::from_str(name);
    m.append("() takes ");
    push_decimal(&mut m, params as u64);
    m.append(" positional argument");
    if params != 1 {
        m.append("s");
    }
    m.append(" but ");
    push_decimal(&mut m, given as u64);
    m.append(" ");
    if given == 1 {
        m.append("was");
    } else {
        m.append("were");
    }
    m.append(" given");
    proof {
        reveal_strlit("");
        assert(m@ =~= arity_message(name@, params as nat, given as nat));
    }
    Err(ExceptionValue::new(ExceptionType::TypeError, m))
}

/// The error for unpacking `got` items into `expected` targets.
pub open spec fn unpack_message(expected: nat, got: nat) -> Seq<char> {
    "too many values to unpack (expected "@ + decimal_text(expected) + ", got "@ + decimal_text(got)
        + ")"@
}

/// Checks that a sequence of `got` items unpacks into `expected` targets: a
/// `ValueError` otherwise (with the same wording whether there are too many
/// items or too few).
pub fn check_unpack(expected: usize, got: usize) -> (res: Result<(), ExceptionValue>)
    ensures
        got == expected ==> res is Ok,
        got != expected ==> (res matches Err(e) && raised(e) == (
            ExceptionType::ValueError,
            unpack_message(expected as nat, got as nat),
        ) && e.traceback is None),
{
    if got == expected {
        return Ok(());
    }
    let mut m = String::from_str("too many values to unpack (expected ");
    push_decimal(&mut m, expected as u64);
    m.append(", got ");
    push_decimal(&mut m, got as u64);
    m.append(")");
    proof {
        assert(m@ =~= unpack_message(expected as nat, got as nat));
    }
    Err(ExceptionValue::new(ExceptionType::ValueError, m))
}

} // verus!
