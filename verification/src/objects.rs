//! The methods of lists (`append`, `pop`) and of match objects (`group`,
//! `groups`, `start`, `end`, `span`), with their argument checks.
use vstd::prelude::*;
use crate::slice::{list_position, position_of};
use crate::text::str_eq;
use crate::value::{next_version, raised, DictKey, ExceptionType, ExceptionValue, ListValue, MatchObject, Raised};

verus! {

/// What `list.method(*args)` does: `append` adds its one argument, `pop`
/// takes no argument and removes the last item; each modification moves
/// the version on. Returns the popped item, or `None` for `append`.
pub fn list_method<T>(list: &mut ListValue<T>, method: &str, args: Vec<T>) -> (res: Result<
    Option<T>,
    ExceptionValue,
>)
    ensures
        method@ == "append"@ && args@.len() == 1 ==> {
            &&& res matches Ok(r) && r is None
            &&& final(list).items@ == old(list).items@.push(args@[0])
            &&& final(list).version == next_version(old(list).version)
        },
        method@ == "pop"@ && args@.len() == 0 && old(list).items@.len() > 0 ==> {
            &&& res matches Ok(r) && r == Some(old(list).items@.last())
            &&& final(list).items@ == old(list).items@.drop_last()
            &&& final(list).version == next_version(old(list).version)
        },
        res is Err ==> final(list).items@ == old(list).items@ && final(list).version == old(list).version,
        method@ == "append"@ && args@.len() != 1 ==> (res matches Err(e) && raised(e) == (
            ExceptionType::TypeError,
            "append() takes exactly one argument"@,
        ) && e.traceback is None),
        method@ == "pop"@ && args@.len() != 0 ==> (res matches Err(e) && raised(e) == (
            ExceptionType::TypeError,
            "pop() takes no arguments"@,
        ) && e.traceback is None),
        method@ == "pop"@ && args@.len() == 0 && old(list).items@.len() == 0 ==> (res matches Err(e)
            && raised(e) == (ExceptionType::IndexError, "pop from empty list"@) && e.traceback
            is None),
        method@ != "append"@ && method@ != "pop"@ ==> (res matches Err(e) && raised(e) == (
            ExceptionType::RuntimeError,
            "'list' object has no attribute '"@ + method@ + "'"@,
        ) && e.traceback is None),
{
    proof {
        reveal_strlit("append");
        reveal_strlit("pop");
        assert("append"@.len() != "pop"@.len());
        assert("append"@ != "pop"@);
    }
    let mut args = args;
    if str_eq(method, "append") {
        if args.len() != 1 {
            return Err(
                ExceptionValue::new(
                    ExceptionType::TypeError,
                    String::from_str("append() takes exactly one argument"),
                ),
            );
        }
        let v = args.pop().unwrap();
        list.items.push(v);
        list.increment_version();
        Ok(None)
    } else if str_eq(method, "pop") {
        if args.len() != 0 {
            return Err(
                ExceptionValue::new(ExceptionType::TypeError, String::from_str("pop() takes no arguments")),
            );
        }
        if list.items.len() == 0 {
            return Err(
                ExceptionValue::new(ExceptionType::IndexError, String::from_str("pop from empty list")),
            );
        }
        let v = list.items.pop().unwrap();
        list.increment_version();
        Ok(Some(v))
    } else {
        let mut m = String::from_str("'list' object has no attribute '");
        m.append(method);
        m.append("'");
        Err(ExceptionValue::new(ExceptionType::RuntimeError, m))
    }
}

/// What a method of a match object gives.
pub enum MatchResult {
    /// One group: its text, or `None` when it took no part.
    Group(Option<String>),
    /// The groups after the whole match.
    Groups(Vec<Option<String>>),
    Int(i32),
    Span(i32, i32),
}

/// The group number given to `group`: 0 by default, the integer argument
/// otherwise (a negative one names no group).
pub open spec fn group_index(args: Seq<Option<i32>>) -> Result<int, Raised> {
    if args.len() == 0 {
        Ok(0)
    } else {
        match args[0] {
            Some(i) => Ok(i as usize as int),
            None => Err((ExceptionType::TypeError, "group index must be an integer"@)),
        }
    }
}

/// A copy of a group's text.
fn copy_group(g: &Option<String>) -> (res: Option<String>)
    ensures
        res == *g,
{
    match g {
        Some(s) => Some(s.clone()),
        None => None,
    }
}

/// `m.method(*args)`, each argument given as its integer value when it is
/// an integer.
pub fn match_method(m: &MatchObject, method: &str, args: &Vec<Option<i32>>) -> (res: Result<
    MatchResult,
    ExceptionValue,
>)
    ensures
        method@ == "group"@ ==> match group_index(args@) {
            Err(r) => res matches Err(e) && raised(e) == r && e.traceback is None,
            Ok(i) => if i < m.groups@.len() {
                res matches Ok(MatchResult::Group(g)) && g == m.groups@[i]
            } else {
                res matches Err(e) && raised(e) == (ExceptionType::IndexError, "no such group"@)
                    && e.traceback is None
            },
        },
        method@ == "groups"@ && m.groups@.len() > 0 ==> (res matches Ok(MatchResult::Groups(gs))
            && gs@ == m.groups@.drop_first()),
        method@ == "groups"@ && m.groups@.len() == 0 ==> (res matches Ok(MatchResult::Groups(gs))
            && gs@.len() == 0),
        method@ == "start"@ ==> res == Ok::<MatchResult, ExceptionValue>(MatchResult::Int(m.start as i32)),
        method@ == "end"@ ==> res == Ok::<MatchResult, ExceptionValue>(MatchResult::Int(m.end as i32)),
        method@ == "span"@ ==> res == Ok::<MatchResult, ExceptionValue>(
            MatchResult::Span(m.start as i32, m.end as i32),
        ),
        method@ != "group"@ && method@ != "groups"@ && method@ != "start"@ && method@ != "end"@
            && method@ != "span"@ ==> (res matches Err(e) && raised(e) == (
            ExceptionType::AttributeError,
            "'Match' object has no attribute '"@ + method@ + "'"@,
        ) && e.traceback is None),
{
    proof {
        reveal_strlit("group");
        reveal_strlit("groups");
        reveal_strlit("start");
        reveal_strlit("end");
        reveal_strlit("span");
        assert("group"@.len() != "groups"@.len());
        assert("groups"@.len() != "start"@.len() && "groups"@.len() != "end"@.len()
            && "groups"@.len() != "span"@.len());
        assert("group"@ != "groups"@);
        assert("groups"@ != "start"@ && "groups"@ != "end"@ && "groups"@ != "span"@);
        assert("group"@[0] != "start"@[0]);
        assert("group"@ != "start"@ && "group"@ != "end"@ && "group"@ != "span"@);
        assert("start"@ != "end"@ && "start"@ != "span"@ && "end"@ != "span"@);
    }
    if str_eq(method, "group") {
        let index: usize = if args.len() == 0 {
            0
        } else {
            match args[0] {
                Some(i) => i as usize,
                None => {
                    return Err(
                        ExceptionValue::new(
                            ExceptionType::TypeError,
                            String::from_str("group index must be an integer"),
                        ),
                    );
                },
            }
        };
        if index >= m.groups.len() {
            return Err(ExceptionValue::new(ExceptionType::IndexError, String::from_str("no such group")));
        }
        Ok(MatchResult::Group(copy_group(&m.groups[index])))
    } else if str_eq(method, "groups") {
        let n = m.groups.len();
        let mut out: Vec<Option<String>> = Vec::new();
        let mut i: usize = 1;
        while i < n
            invariant
                n == m.groups@.len(),
                1 <= i <= n || n == 0,
                n > 0 ==> out@ == m.groups@.subrange(1, i as int),
                n == 0 ==> out@.len() == 0,
            decreases n - i,
        {
            out.push(copy_group(&m.groups[i]));
            i = i + 1;
        }
        assert(n > 0 ==> out@ =~= m.groups@.drop_first());
        Ok(MatchResult::Groups(out))
    } else if str_eq(method, "start") {
        Ok(MatchResult::Int(m.start as i32))
    } else if str_eq(method, "end") {
        Ok(MatchResult::Int(m.end as i32))
    } else if str_eq(method, "span") {
        Ok(MatchResult::Span(m.start as i32, m.end as i32))
    } else {
        let mut s = String::from_str("'Match' object has no attribute '");
        s.append(method);
        s.append("'");
        Err(ExceptionValue::new(ExceptionType::AttributeError, s))
    }
}

/// `list[idx] = value`: the item at the position `idx` names (counting from
/// the end when negative) is replaced and the version moves on; an
/// `IndexError` when `idx` names no item, and the list is left as it was.
pub fn list_set_item<T>(list: &mut ListValue<T>, idx: i32, value: T) -> (res: Result<(), ExceptionValue>)
    requires
        old(list).items@.len() <= i32::MAX,
    ensures
        match position_of(old(list).items@.len() as int, idx as int) {
            Some(p) => {
                &&& res is Ok
                &&& final(list).items@ == old(list).items@.update(p, value)
                &&& final(list).version == next_version(old(list).version)
            },
            None => {
                &&& res matches Err(e) && raised(e) == (
                    ExceptionType::IndexError,
                    "list assignment index out of range"@,
                ) && e.traceback is None
                &&& final(list).items@ == old(list).items@
                &&& final(list).version == old(list).version
            },
        },
{
    let len = list.items.len() as i32;
    match list_position(len, idx) {
        Some(p) => {
            list.items.set(p, value);
            list.increment_version();
            Ok(())
        },
        None => Err(
            ExceptionValue::new(
                ExceptionType::IndexError,
                String::from_str("list assignment index out of range"),
            ),
        ),
    }
}

/// What a call of a dict method asks for.
pub enum DictCall {
    /// `d.keys()`: the keys, as a list.
    Keys,
    /// `d.get(key)` or `d.get(key, default)`: the value under the key, else
    /// the second argument when there is one, else `None`.
    Get(DictKey),
}

/// What `d.method(*args)` asks for, or the exception it raises. Each
/// argument is given as the dict key it makes (`None` for a value that is
/// no string or integer).
pub open spec fn dict_method_spec(method: Seq<char>, args: Seq<Option<DictKey>>) -> Result<DictCall, Raised> {
    if method == "keys"@ {
        if args.len() != 0 {
            Err((ExceptionType::TypeError, "keys() takes no arguments"@))
        } else {
            Ok(DictCall::Keys)
        }
    } else if method == "get"@ {
        if args.len() == 0 {
            Err((ExceptionType::TypeError, "get() takes at least 1 argument (0 given)"@))
        } else {
            match args[0] {
                Some(k) => Ok(DictCall::Get(k)),
                None => Err((ExceptionType::TypeError, "unhashable type"@)),
            }
        }
    } else {
        Err((ExceptionType::RuntimeError, "'dict' object has no attribute '"@ + method + "'"@))
    }
}

/// The method of a dict that a call names, with its argument checks.
pub fn dict_method(method: &str, args: &Vec<Option<DictKey>>) -> (res: Result<DictCall, ExceptionValue>)
    ensures
        match dict_method_spec(method@, args@) {
            Ok(c) => res matches Ok(r) && r == c,
            Err(r) => res matches Err(e) && raised(e) == r && e.traceback is None,
        },
{
    if str_eq(method, "keys") {
        if args.len() != 0 {
            return Err(
                ExceptionValue::new(ExceptionType::TypeError, String::from_str("keys() takes no arguments")),
            );
        }
        Ok(DictCall::Keys)
    } else if str_eq(method, "get") {
        if args.len() == 0 {
            return Err(
                ExceptionValue::new(
                    ExceptionType::TypeError,
                    String::from_str("get() takes at least 1 argument (0 given)"),
                ),
            );
        }
        match &args[0] {
            Some(DictKey::String(t)) => Ok(DictCall::Get(DictKey::String(t.clone()))),
            Some(DictKey::Int(i)) => Ok(DictCall::Get(DictKey::Int(*i))),
            None => Err(ExceptionValue::new(ExceptionType::TypeError, String::from_str("unhashable type"))),
        }
    } else {
        let mut m = String::from_str("'dict' object has no attribute '");
        m.append(method);
        m.append("'");
        Err(ExceptionValue::new(ExceptionType::RuntimeError, m))
    }
}

} // verus!
