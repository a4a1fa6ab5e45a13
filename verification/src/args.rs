//! Argument checks of the functions of the `os`, `os.path` and `json`
//! modules. Each argument is given as its text when it is a string, `None`
//! for any other value.
use vstd::prelude::*;
use crate::value::{raised, ExceptionType, ExceptionValue, Raised};

verus! {

/// The first argument of `function`, which names it `param` when it is
/// missing and `what` when it is not a string.
pub open spec fn required_text_arg(
    args: Seq<Option<String>>,
    function: Seq<char>,
    param: Seq<char>,
    what: Seq<char>,
) -> Result<Seq<char>, Raised> {
    if args.len() == 0 {
        Err(
            (
                ExceptionType::TypeError,
                function + "() missing required argument: '"@ + param + "'"@,
            ),
        )
    } else {
        match args[0] {
            Some(s) => Ok(s@),
            None => Err((ExceptionType::TypeError, what + " must be a string"@)),
        }
    }
}

/// The first argument of `function`, which must be a string: a `TypeError`
/// when it is missing or not a string.
pub fn required_arg(args: &Vec<Option<String>>, function: &str, param: &str, what: &str) -> (res:
    Result<String, ExceptionValue>)
    ensures
        match required_text_arg(args@, function@, param@, what@) {
            Ok(t) => res matches Ok(s) && s@ == t,
            Err(r) => res matches Err(e) && raised(e) == r && e.traceback is None,
        },
{
    if args.len() == 0 {
        let mut m = String::from_str(function);
        m.append("() missing required argument: '");
        m.append(param);
        m.append("'");
        return Err(ExceptionValue::new(ExceptionType::TypeError, m));
    }
    match &args[0] {
        Some(s) => Ok(s.clone()),
        None => {
            let mut m = String::from_str(what);
            m.append(" must be a string");
            Err(ExceptionValue::new(ExceptionType::TypeError, m))
        },
    }
}

/// The old and new paths of `os.rename(old, new)`.
pub open spec fn rename_spec(args: Seq<Option<String>>) -> Result<(Seq<char>, Seq<char>), Raised> {
    if args.len() < 2 {
        Err((ExceptionType::TypeError, "rename() requires 2 arguments: old and new"@))
    } else {
        match args[0] {
            None => Err((ExceptionType::TypeError, "old path must be a string"@)),
            Some(old) => match args[1] {
                None => Err((ExceptionType::TypeError, "new path must be a string"@)),
                Some(new) => Ok((old@, new@)),
            },
        }
    }
}

/// The old and new paths of `os.rename(old, new)`: a `TypeError` when
/// either is missing or not a string.
pub fn rename_args(args: &Vec<Option<String>>) -> (res: Result<(String, String), ExceptionValue>)
    ensures
        match rename_spec(args@) {
            Ok((old, new)) => res matches Ok(p) && p.0@ == old && p.1@ == new,
            Err(r) => res matches Err(e) && raised(e) == r && e.traceback is None,
        },
{
    if args.len() < 2 {
        return Err(
            ExceptionValue::new(
                ExceptionType::TypeError,
                String::from_str("rename() requires 2 arguments: old and new"),
            ),
        );
    }
    match (&args[0], &args[1]) {
        (None, _) => Err(
            ExceptionValue::new(ExceptionType::TypeError, String::from_str("old path must be a string")),
        ),
        (Some(_), None) => Err(
            ExceptionValue::new(ExceptionType::TypeError, String::from_str("new path must be a string")),
        ),
        (Some(old), Some(new)) => Ok((old.clone(), new.clone())),
    }
}

/// The parts of `os.path.join(*parts)`: every argument must be a string.
pub fn join_args(args: &Vec<Option<String>>) -> (res: Result<Vec<String>, ExceptionValue>)
    ensures
        (forall|i: int| 0 <= i < args@.len() ==> args@[i] is Some) ==> (res matches Ok(v)
            && v@.len() == args@.len() && forall|i: int|
            0 <= i < args@.len() ==> v@[i]@ == args@[i]->0@),
        (exists|i: int| 0 <= i < args@.len() && args@[i] is None) ==> (res matches Err(e) && raised(e)
            == (ExceptionType::TypeError, "all arguments must be strings"@) && e.traceback is None),
{
    let n = args.len();
    let mut parts: Vec<String> = Vec::new();
    let mut i: usize = 0;
    while i < n
        invariant
            n == args@.len(),
            i <= n,
            parts@.len() == i,
            forall|j: int| 0 <= j < i ==> args@[j] is Some && parts@[j]@ == args@[j]->0@,
        decreases n - i,
    {
        match &args[i] {
            Some(s) => {
                parts.push(s.clone());
            },
            None => {
                return Err(
                    ExceptionValue::new(
                        ExceptionType::TypeError,
                        String::from_str("all arguments must be strings"),
                    ),
                );
            },
        }
        i = i + 1;
    }
    Ok(parts)
}

} // verus!
