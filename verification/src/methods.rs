//! The methods of strings that scripts can call: `split`, `strip`,
//! `startswith`, `endswith`, `lower`, `upper`, `replace` and `join`, with
//! their argument checks.
use vstd::prelude::*;
use crate::strings::{
    lemma_join_split_roundtrip, lemma_replace_is_join_of_split, lowercase_of, occurs_at, spec_join, spec_replace, spec_split, spec_strip, split_whitespace,
    string_endswith, string_join, string_lower, string_replace, string_split, string_startswith,
    string_strip, string_upper, uppercase_of, views, words_from,
};
use crate::text::str_eq;
use crate::value::{raised, ExceptionType, ExceptionValue, Raised};

verus! {

/// A value handed to a string method, as the methods read it.
pub enum MethodArg {
    Text(String),
    NoneValue,
    /// A list, by its items: the text of each string, `None` for any other.
    List(Vec<Option<String>>),
    Other,
}

/// What a string method returns.
pub enum MethodResult {
    Text(String),
    Bool(bool),
    List(Vec<String>),
}

/// The mathematical value of a method's result.
pub enum MethodValue {
    Text(Seq<char>),
    Bool(bool),
    List(Seq<Seq<char>>),
}

impl View for MethodResult {
    type V = MethodValue;

    open spec fn view(&self) -> MethodValue {
        match self {
            MethodResult::Text(s) => MethodValue::Text(s@),
            MethodResult::Bool(b) => MethodValue::Bool(*b),
            MethodResult::List(v) => MethodValue::List(views(v@)),
        }
    }
}

/// Every item of a list is a string.
pub open spec fn all_texts(items: Seq<Option<String>>) -> bool {
    forall|i: int| 0 <= i < items.len() ==> #[trigger] items[i] is Some
}

/// The texts of a list of strings.
pub open spec fn item_texts(items: Seq<Option<String>>) -> Seq<Seq<char>> {
    items.map_values(|x: Option<String>| x->0@)
}

/// What `s.method(*args)` returns, or the exception it raises.
pub open spec fn method_spec(s: Seq<char>, method: Seq<char>, args: Seq<MethodArg>) -> Result<
    MethodValue,
    Raised,
> {
    if method == "split"@ {
        if args.len() == 0 {
            Ok(MethodValue::List(words_from(s, 0)))
        } else {
            match args[0] {
                MethodArg::Text(sep) => Ok(MethodValue::List(spec_split(s, sep@))),
                MethodArg::NoneValue => Ok(MethodValue::List(words_from(s, 0))),
                _ => Err((ExceptionType::TypeError, "sep must be string or None"@)),
            }
        }
    } else if method == "strip"@ {
        Ok(MethodValue::Text(spec_strip(s)))
    } else if method == "startswith"@ {
        if args.len() == 0 {
            Err((ExceptionType::TypeError, "startswith() takes at least 1 argument"@))
        } else {
            match args[0] {
                MethodArg::Text(p) => Ok(MethodValue::Bool(occurs_at(s, p@, 0))),
                _ => Err((ExceptionType::TypeError, "startswith() argument must be str"@)),
            }
        }
    } else if method == "endswith"@ {
        if args.len() == 0 {
            Err((ExceptionType::TypeError, "endswith() takes at least 1 argument"@))
        } else {
            match args[0] {
                MethodArg::Text(p) => Ok(
                    MethodValue::Bool(
                        p@.len() <= s.len() && occurs_at(s, p@, s.len() - p@.len()),
                    ),
                ),
                _ => Err((ExceptionType::TypeError, "endswith() argument must be str"@)),
            }
        }
    } else if method == "lower"@ {
        Ok(MethodValue::Text(lowercase_of(s)))
    } else if method == "upper"@ {
        Ok(MethodValue::Text(uppercase_of(s)))
    } else if method == "replace"@ {
        if args.len() < 2 {
            Err((ExceptionType::TypeError, "replace() takes at least 2 arguments"@))
        } else {
            match args[0] {
                MethodArg::Text(old) => match args[1] {
                    MethodArg::Text(new) => Ok(MethodValue::Text(spec_replace(s, old@, new@))),
                    _ => Err((ExceptionType::TypeError, "replace() argument 2 must be str"@)),
                },
                _ => Err((ExceptionType::TypeError, "replace() argument 1 must be str"@)),
            }
        }
    } else if method == "join"@ {
        if args.len() == 0 {
            Err((ExceptionType::TypeError, "join() takes exactly 1 argument"@))
        } else {
            match args[0] {
                MethodArg::List(items) => if all_texts(items@) {
                    Ok(MethodValue::Text(spec_join(item_texts(items@), s)))
                } else {
                    Err((ExceptionType::TypeError, "join() requires all items to be strings"@))
                },
                _ => Err((ExceptionType::TypeError, "join() argument must be a list"@)),
            }
        }
    } else {
        Err((ExceptionType::AttributeError, "'str' object has no attribute '"@ + method + "'"@))
    }
}

/// What calling `method` on `receiver` does: only strings have methods.
pub open spec fn call_spec(receiver: MethodArg, method: Seq<char>, args: Seq<MethodArg>) -> Result<
    MethodValue,
    Raised,
> {
    match receiver {
        MethodArg::Text(s) => method_spec(s@, method, args),
        _ => Err((ExceptionType::TypeError, "bound method called on non-string"@)),
    }
}

fn type_error(msg: &str) -> (res: ExceptionValue)
    ensures
        raised(res) == (ExceptionType::TypeError, msg@),
        res.traceback is None,
{
    ExceptionValue::new(ExceptionType::TypeError, String::from_str(msg))
}

/// The texts of the items of a list, when all of them are strings.
fn texts_of(items: &Vec<Option<String>>) -> (res: Option<Vec<String>>)
    ensures
        match res {
            Some(v) => all_texts(items@) && views(v@) == item_texts(items@),
            None => !all_texts(items@),
        },
{
    let n = items.len();
    let mut out: Vec<String> = Vec::new();
    let mut i: usize = 0;
    while i < n
        invariant
            n == items@.len(),
            i <= n,
            out@.len() == i,
            forall|j: int| 0 <= j < i ==> #[trigger] items@[j] is Some && out@[j]@ == items@[j]->0@,
        decreases n - i,
    {
        match &items[i] {
            Some(s) => out.push(s.clone()),
            None => return None,
        }
        i = i + 1;
    }
    assert(views(out@) =~= item_texts(items@));
    Some(out)
}

/// `s.method(*args)`.
fn string_method(s: &str, method: &str, args: &Vec<MethodArg>) -> (res: Result<
    MethodResult,
    ExceptionValue,
>)
    ensures
        match method_spec(s@, method@, args@) {
            Ok(v) => res matches Ok(r) && r@ == v,
            Err(r) => res matches Err(e) && raised(e) == r && e.traceback is None,
        },
{
    if str_eq(method, "split") {
        if args.len() == 0 {
            return Ok(MethodResult::List(split_whitespace(s)));
        }
        match &args[0] {
            MethodArg::Text(sep) => Ok(MethodResult::List(string_split(s, sep.as_str()))),
            MethodArg::NoneValue => Ok(MethodResult::List(split_whitespace(s))),
            _ => Err(type_error("sep must be string or None")),
        }
    } else if str_eq(method, "strip") {
        Ok(MethodResult::Text(string_strip(s)))
    } else if str_eq(method, "startswith") {
        if args.len() == 0 {
            return Err(type_error("startswith() takes at least 1 argument"));
        }
        match &args[0] {
            MethodArg::Text(p) => Ok(MethodResult::Bool(string_startswith(s, p.as_str()))),
            _ => Err(type_error("startswith() argument must be str")),
        }
    } else if str_eq(method, "endswith") {
        if args.len() == 0 {
            return Err(type_error("endswith() takes at least 1 argument"));
        }
        match &args[0] {
            MethodArg::Text(p) => Ok(MethodResult::Bool(string_endswith(s, p.as_str()))),
            _ => Err(type_error("endswith() argument must be str")),
        }
    } else if str_eq(method, "lower") {
        Ok(MethodResult::Text(string_lower(s)))
    } else if str_eq(method, "upper") {
        Ok(MethodResult::Text(string_upper(s)))
    } else if str_eq(method, "replace") {
        if args.len() < 2 {
            return Err(type_error("replace() takes at least 2 arguments"));
        }
        match (&args[0], &args[1]) {
            (MethodArg::Text(old), MethodArg::Text(new)) => Ok(
                MethodResult::Text(string_replace(s, old.as_str(), new.as_str())),
            ),
            (MethodArg::Text(_), _) => Err(type_error("replace() argument 2 must be str")),
            _ => Err(type_error("replace() argument 1 must be str")),
        }
    } else if str_eq(method, "join") {
        if args.len() == 0 {
            return Err(type_error("join() takes exactly 1 argument"));
        }
        match &args[0] {
            MethodArg::List(items) => match texts_of(items) {
                Some(parts) => Ok(MethodResult::Text(string_join(s, &parts))),
                None => Err(type_error("join() requires all items to be strings")),
            },
            _ => Err(type_error("join() argument must be a list")),
        }
    } else {
        let mut m = String::from_str("'str' object has no attribute '");
        m.append(method);
        m.append("'");
        Err(ExceptionValue::new(ExceptionType::AttributeError, m))
    }
}

/// Calls `method` on `receiver` with `args`: a string method, or a
/// `TypeError` when the receiver is not a string.
pub fn call_string_method(receiver: &MethodArg, method: &str, args: &Vec<MethodArg>) -> (res: Result<
    MethodResult,
    ExceptionValue,
>)
    ensures
        match call_spec(*receiver, method@, args@) {
            Ok(v) => res matches Ok(r) && r@ == v,
            Err(r) => res matches Err(e) && raised(e) == r && e.traceback is None,
        },
{
    match receiver {
        MethodArg::Text(s) => string_method(s.as_str(), method, args),
        _ => Err(type_error("bound method called on non-string")),
    }
}

/// `s.startswith(p)` is true exactly when `p` is a prefix of `s`, and
/// `s.endswith(p)` exactly when `p` is a suffix of `s`; an argument that is
/// not a string raises a `TypeError`.
pub proof fn lemma_prefix_and_suffix_tests(s: Seq<char>, p: String)
    ensures
        method_spec(s, "startswith"@, seq![MethodArg::Text(p)]) == Ok::<MethodValue, Raised>(
            MethodValue::Bool(p@.len() <= s.len() && s.subrange(0, p@.len() as int) == p@),
        ),
        method_spec(s, "endswith"@, seq![MethodArg::Text(p)]) == Ok::<MethodValue, Raised>(
            MethodValue::Bool(
                p@.len() <= s.len() && s.subrange(s.len() - p@.len(), s.len() as int) == p@,
            ),
        ),
        method_spec(s, "startswith"@, seq![MethodArg::NoneValue]) is Err,
        method_spec(s, "endswith"@, seq![MethodArg::NoneValue]) is Err,
{
    reveal_strlit("split");
    reveal_strlit("strip");
    reveal_strlit("startswith");
    reveal_strlit("endswith");
    assert("split"@.len() == 5 && "strip"@.len() == 5 && "startswith"@.len() == 10
        && "endswith"@.len() == 8);
    assert("startswith"@ != "split"@ && "startswith"@ != "strip"@ && "endswith"@ != "split"@
        && "endswith"@ != "strip"@ && "endswith"@ != "startswith"@);
}

/// The string methods do what the string operations of the library do:
/// `split` with a separator splits on it and without one (or with `None`)
/// splits on runs of whitespace, `strip` strips, `replace` replaces every
/// occurrence, `join` joins the strings of a list with the receiver between
/// them, and `lower`/`upper` map the case.
pub proof fn lemma_methods_are_the_string_operations(s: Seq<char>, a: String, b: String, items: Vec<Option<String>>)
    ensures
        method_spec(s, "split"@, seq![MethodArg::Text(a)]) == Ok::<MethodValue, Raised>(
            MethodValue::List(spec_split(s, a@)),
        ),
        method_spec(s, "split"@, Seq::empty()) == Ok::<MethodValue, Raised>(MethodValue::List(words_from(s, 0))),
        method_spec(s, "split"@, seq![MethodArg::NoneValue]) == Ok::<MethodValue, Raised>(
            MethodValue::List(words_from(s, 0)),
        ),
        method_spec(s, "strip"@, Seq::empty()) == Ok::<MethodValue, Raised>(MethodValue::Text(spec_strip(s))),
        method_spec(s, "replace"@, seq![MethodArg::Text(a), MethodArg::Text(b)]) == Ok::<MethodValue, Raised>(
            MethodValue::Text(spec_replace(s, a@, b@)),
        ),
        all_texts(items@) ==> method_spec(s, "join"@, seq![MethodArg::List(items)]) == Ok::<MethodValue, Raised>(
            MethodValue::Text(spec_join(item_texts(items@), s)),
        ),
        method_spec(s, "lower"@, Seq::empty()) == Ok::<MethodValue, Raised>(MethodValue::Text(lowercase_of(s))),
        method_spec(s, "upper"@, Seq::empty()) == Ok::<MethodValue, Raised>(MethodValue::Text(uppercase_of(s))),
{
    reveal_strlit("split");
    reveal_strlit("strip");
    reveal_strlit("startswith");
    reveal_strlit("endswith");
    reveal_strlit("lower");
    reveal_strlit("upper");
    reveal_strlit("replace");
    reveal_strlit("join");
    assert("split"@ != "strip"@) by {
        assert("split"@[1] != "strip"@[1]);
    }
    assert("lower"@ != "split"@ && "lower"@ != "strip"@) by {
        assert("lower"@[0] != "split"@[0] && "lower"@[0] != "strip"@[0]);
    }
    assert("upper"@ != "split"@ && "upper"@ != "strip"@ && "upper"@ != "lower"@) by {
        assert("upper"@[0] != "split"@[0] && "upper"@[0] != "strip"@[0] && "upper"@[0] != "lower"@[0]);
    }
    assert("split"@.len() == 5 && "strip"@.len() == 5 && "startswith"@.len() == 10 && "endswith"@.len() == 8
        && "lower"@.len() == 5 && "upper"@.len() == 5 && "replace"@.len() == 7 && "join"@.len() == 4);
}

/// Joining with `q` the list that `s.split(p)` returned gives `s` with every
/// `p` replaced by `q`, and with `q == p` gives `s` back: the method layer
/// agrees with the string laws.
pub proof fn lemma_split_then_join(s: Seq<char>, p: String, q: Seq<char>, items: Vec<Option<String>>)
    requires
        method_spec(s, "split"@, seq![MethodArg::Text(p)]) == Ok::<MethodValue, Raised>(
            MethodValue::List(item_texts(items@)),
        ),
        all_texts(items@),
    ensures
        method_spec(q, "join"@, seq![MethodArg::List(items)]) == Ok::<MethodValue, Raised>(
            MethodValue::Text(spec_replace(s, p@, q)),
        ),
        q == p@ ==> method_spec(q, "join"@, seq![MethodArg::List(items)]) == Ok::<MethodValue, Raised>(
            MethodValue::Text(s),
        ),
{
    reveal_strlit("split");
    reveal_strlit("strip");
    reveal_strlit("startswith");
    reveal_strlit("endswith");
    reveal_strlit("lower");
    reveal_strlit("upper");
    reveal_strlit("replace");
    reveal_strlit("join");
    assert("join"@.len() == 4 && "split"@.len() == 5 && "strip"@.len() == 5 && "startswith"@.len() == 10
        && "endswith"@.len() == 8 && "lower"@.len() == 5 && "upper"@.len() == 5 && "replace"@.len() == 7);
    assert("join"@ != "split"@ && "join"@ != "strip"@ && "join"@ != "startswith"@ && "join"@
        != "endswith"@ && "join"@ != "lower"@ && "join"@ != "upper"@ && "join"@ != "replace"@);
    assert(item_texts(items@) == spec_split(s, p@));
    lemma_replace_is_join_of_split(s, p@, q);
    lemma_join_split_roundtrip(s, p@);
}

} // verus!
