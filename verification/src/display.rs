//! The text that `print` writes for a value.
//!
//! A runtime value is handed over as a [`Shown`] tree: the parts of the value
//! that its text depends on, as plain values. `print` shows a top-level
//! string without quotes; every value nested in a list, tuple or dict is
//! shown in the inline (repr) form, where strings are quoted. Bools are
//! `True` and `False` in both forms.
use vstd::prelude::*;

use crate::numbers::{int_text, int_text_of};
use crate::strings::spec_join;
use crate::text::{decimal_text, push_decimal};
use crate::value::{DictKey, ExceptionType, TypeObject};

verus! {

/// What the text of a runtime value depends on.
pub enum Shown {
    Int(i32),
    /// A float, by the text that Rust's `Display` gives it.
    Float(String),
    Bool(bool),
    Str(String),
    NoneValue,
    List(Vec<Shown>),
    Tuple(Vec<Shown>),
    /// A dict, by its entries in the order in which its table is walked.
    Dict(Vec<(DictKey, Shown)>),
    Iterator,
    /// A user function, by its name.
    Function(String),
    /// An exception, by its class and message.
    Exception(ExceptionType, String),
    /// A module, by its name.
    Module(String),
    NativeFunction,
    /// A bound method, by the method's name.
    BoundMethod(String),
    Regex,
    /// A match object, by the span it matched.
    Match(usize, usize),
    /// A slice object, by its three bounds.
    Slice(Option<i32>, Option<i32>, Option<i32>),
    Type(TypeObject),
    /// A coroutine, by its function's name.
    Coroutine(String),
    /// A pending `asyncio.sleep`, by the text of its duration in seconds.
    AsyncSleep(String),
}

/// The text of a slice bound, as Rust's `Debug` writes an `Option<i32>`.
pub open spec fn bound_form(b: Option<i32>) -> Seq<char> {
    match b {
        Some(i) => "Some("@ + int_text_of(i as int) + ")"@,
        None => "None"@,
    }
}

/// The text of a dict key.
pub open spec fn key_form(k: DictKey) -> Seq<char> {
    match k {
        DictKey::String(s) => "'"@ + s@ + "'"@,
        DictKey::Int(i) => int_text_of(i as int),
    }
}

/// The inline text of a value: the form used for values nested in a
/// container.
pub open spec fn inline_form(v: Shown) -> Seq<char>
    decreases v,
{
    match v {
        Shown::Int(i) => int_text_of(i as int),
        Shown::Float(t) => t@,
        Shown::Bool(b) => if b {
            "True"@
        } else {
            "False"@
        },
        Shown::Str(s) => "'"@ + s@ + "'"@,
        Shown::NoneValue => "None"@,
        Shown::List(items) => "["@ + items_form(items@) + "]"@,
        Shown::Tuple(items) => "("@ + items_form(items@) + (if items@.len() == 1 {
            ","@
        } else {
            ""@
        }) + ")"@,
        Shown::Dict(entries) => "{"@ + entries_form(entries@) + "}"@,
        Shown::Iterator => "<iterator>"@,
        Shown::Function(name) => "<function "@ + name@ + ">"@,
        Shown::Exception(t, message) => t.spec_name() + ": "@ + message@,
        Shown::Module(name) => "<module '"@ + name@ + "'>"@,
        Shown::NativeFunction => "<built-in function>"@,
        Shown::BoundMethod(name) => "<bound method "@ + name@ + ">"@,
        Shown::Regex => "<regex pattern>"@,
        Shown::Match(start, end) => "<re.Match object; span=("@ + decimal_text(start as nat) + ", "@
            + decimal_text(end as nat) + ")>"@,
        Shown::Slice(start, stop, step) => "slice("@ + bound_form(start) + ", "@ + bound_form(stop)
            + ", "@ + bound_form(step) + ")"@,
        Shown::Type(t) => "<class '"@ + t.spec_name() + "'>"@,
        Shown::Coroutine(name) => "<coroutine object "@ + name@ + ">"@,
        Shown::AsyncSleep(t) => "<async sleep "@ + t@ + ">"@,
    }
}

/// The inline texts of a sequence of values, separated by `", "`.
pub open spec fn items_form(items: Seq<Shown>) -> Seq<char>
    decreases items,
{
    if items.len() == 0 {
        Seq::empty()
    } else if items.len() == 1 {
        inline_form(items[0])
    } else {
        items_form(items.drop_last()) + ", "@ + inline_form(items.last())
    }
}

/// The entries of a dict, each as `key: value`, separated by `", "`.
pub open spec fn entries_form(entries: Seq<(DictKey, Shown)>) -> Seq<char>
    decreases entries,
{
    if entries.len() == 0 {
        Seq::empty()
    } else if entries.len() == 1 {
        key_form(entries[0].0) + ": "@ + inline_form(entries[0].1)
    } else {
        entries_form(entries.drop_last()) + ", "@ + key_form(entries.last().0) + ": "@
            + inline_form(entries.last().1)
    }
}

/// How `print` shows the scalar values: a string as it is at top level and
/// between single quotes inside a container, a bool as `True` or `False`
/// either way, an integer by its decimal text, `None` as `None`; a dict key
/// is quoted when it is a string and bare when it is an integer.
pub proof fn lemma_scalar_texts(t: String, b: bool, i: i32)
    ensures
        print_form(Shown::Str(t)) == t@,
        inline_form(Shown::Str(t)) == seq!['\''] + t@ + seq!['\''],
        print_form(Shown::Bool(b)) == (if b { "True"@ } else { "False"@ }),
        inline_form(Shown::Bool(b)) == (if b { "True"@ } else { "False"@ }),
        print_form(Shown::Int(i)) == int_text_of(i as int),
        print_form(Shown::NoneValue) == "None"@,
        key_form(DictKey::String(t)) == seq!['\''] + t@ + seq!['\''],
        key_form(DictKey::Int(i)) == int_text_of(i as int),
{
    reveal_strlit("'");
    assert("'"@ =~= seq!['\'']);
}

/// The text of one dict entry, `key: value`.
pub open spec fn entry_text(e: (DictKey, Shown)) -> Seq<char> {
    key_form(e.0) + ": "@ + inline_form(e.1)
}

/// The items of a list or tuple are shown as their inline texts joined with
/// exactly `", "` between every two neighbours, whatever their number.
pub proof fn lemma_items_are_joined(items: Seq<Shown>)
    ensures
        items_form(items) == spec_join(items.map_values(|x: Shown| inline_form(x)), ", "@),
    decreases items.len(),
{
    let texts = items.map_values(|x: Shown| inline_form(x));
    if items.len() >= 2 {
        lemma_items_are_joined(items.drop_last());
        assert(texts.drop_last() =~= items.drop_last().map_values(|x: Shown| inline_form(x)));
    }
}

/// The entries of a dict are shown as `key: value` texts joined with exactly
/// `", "` between every two neighbours, whatever their number.
pub proof fn lemma_entries_are_joined(entries: Seq<(DictKey, Shown)>)
    ensures
        entries_form(entries) == spec_join(entries.map_values(|e: (DictKey, Shown)| entry_text(e)), ", "@),
    decreases entries.len(),
{
    let texts = entries.map_values(|e: (DictKey, Shown)| entry_text(e));
    if entries.len() >= 2 {
        lemma_entries_are_joined(entries.drop_last());
        assert(texts.drop_last() =~= entries.drop_last().map_values(|e: (DictKey, Shown)| entry_text(e)));
        assert(entries_form(entries) =~= spec_join(texts.drop_last(), ", "@) + ", "@ + texts.last());
    } else if entries.len() == 1 {
        assert(entries_form(entries) =~= texts[0]);
    }
}

/// What `print` writes for a list, a tuple and a dict: the joined item (or
/// entry) texts between brackets, parentheses or braces; a one-item tuple
/// keeps its trailing comma.
pub proof fn lemma_container_texts(items: Vec<Shown>, entries: Vec<(DictKey, Shown)>)
    ensures
        print_form(Shown::List(items)) == "["@ + spec_join(items@.map_values(|x: Shown| inline_form(x)), ", "@) + "]"@,
        print_form(Shown::Tuple(items)) == "("@ + spec_join(items@.map_values(|x: Shown| inline_form(x)), ", "@)
            + (if items@.len() == 1 { ","@ } else { ""@ }) + ")"@,
        print_form(Shown::Dict(entries)) == "{"@ + spec_join(
            entries@.map_values(|e: (DictKey, Shown)| entry_text(e)),
            ", "@,
        ) + "}"@,
{
    lemma_items_are_joined(items@);
    lemma_entries_are_joined(entries@);
}

/// The text that `print` writes for a value: a string as it is, anything
/// else in its inline form.
pub open spec fn print_form(v: Shown) -> Seq<char> {
    match v {
        Shown::Str(s) => s@,
        _ => inline_form(v),
    }
}

/// Appends the text of a slice bound.
fn push_bound(out: &mut String, b: Option<i32>)
    ensures
        final(out)@ == old(out)@ + bound_form(b),
{
    match b {
        Some(i) => {
            out.append("Some(");
            let t = int_text(i);
            out.append(t.as_str());
            out.append(")");
            assert(final(out)@ =~= old(out)@ + bound_form(b));
        },
        None => {
            out.append("None");
        },
    }
}

/// Appends the text of a dict key.
fn push_key(out: &mut String, k: &DictKey)
    ensures
        final(out)@ == old(out)@ + key_form(*k),
{
    match k {
        DictKey::String(s) => {
            out.append("'");
            out.append(s.as_str());
            out.append("'");
            assert(final(out)@ =~= old(out)@ + key_form(*k));
        },
        DictKey::Int(i) => {
            let t = int_text(*i);
            out.append(t.as_str());
        },
    }
}

/// Appends the inline text of a value.
fn push_inline(out: &mut String, v: &Shown)
    ensures
        final(out)@ == old(out)@ + inline_form(*v),
    decreases v, 1int,
{
    let ghost o = out@;
    match v {
        Shown::Int(i) => {
            let t = int_text(*i);
            out.append(t.as_str());
        },
        Shown::Float(t) => {
            out.append(t.as_str());
        },
        Shown::Bool(b) => {
            if *b {
                out.append("True");
            } else {
                out.append("False");
            }
        },
        Shown::Str(s) => {
            out.append("'");
            out.append(s.as_str());
            out.append("'");
        },
        Shown::NoneValue => {
            out.append("None");
        },
        Shown::List(items) => {
            out.append("[");
            push_items(out, items);
            out.append("]");
        },
        Shown::Tuple(items) => {
            out.append("(");
            push_items(out, items);
            if items.len() == 1 {
                out.append(",");
            } else {
                out.append("");
            }
            out.append(")");
        },
        Shown::Dict(entries) => {
            out.append("{");
            push_entries(out, entries);
            out.append("}");
        },
        Shown::Iterator => {
            out.append("<iterator>");
        },
        Shown::Function(name) => {
            out.append("<function ");
            out.append(name.as_str());
            out.append(">");
        },
        Shown::Exception(t, message) => {
            out.append(t.name());
            out.append(": ");
            out.append(message.as_str());
        },
        Shown::Module(name) => {
            out.append("<module '");
            out.append(name.as_str());
            out.append("'>");
        },
        Shown::NativeFunction => {
            out.append("<built-in function>");
        },
        Shown::BoundMethod(name) => {
            out.append("<bound method ");
            out.append(name.as_str());
            out.append(">");
        },
        Shown::Regex => {
            out.append("<regex pattern>");
        },
        Shown::Match(start, end) => {
            out.append("<re.Match object; span=(");
            push_decimal(out, *start as u64);
            out.append(", ");
            push_decimal(out, *end as u64);
            out.append(")>");
        },
        Shown::Slice(start, stop, step) => {
            out.append("slice(");
            push_bound(out, *start);
            out.append(", ");
            push_bound(out, *stop);
            out.append(", ");
            push_bound(out, *step);
            out.append(")");
        },
        Shown::Type(t) => {
            out.append("<class '");
            out.append(t.name());
            out.append("'>");
        },
        Shown::Coroutine(name) => {
            out.append("<coroutine object ");
            out.append(name.as_str());
            out.append(">");
        },
        Shown::AsyncSleep(t) => {
            out.append("<async sleep ");
            out.append(t.as_str());
            out.append(">");
        },
    }
    assert(out@ =~= o + inline_form(*v));
}

/// Appends the inline texts of values, separated by `", "`.
fn push_items(out: &mut String, items: &Vec<Shown>)
    ensures
        final(out)@ == old(out)@ + items_form(items@),
    decreases items, 0int,
{
    let ghost o = out@;
    let n = items.len();
    let mut i: usize = 0;
    assert(items@.subrange(0, 0) =~= Seq::<Shown>::empty());
    assert(o + Seq::<char>::empty() =~= o);
    while i < n
        invariant
            n == items@.len(),
            i <= n,
            out@ == o + items_form(items@.subrange(0, i as int)),
        decreases n - i,
    {
        let ghost before = out@;
        let ghost done = items@.subrange(0, i as int);
        let ghost next = items@.subrange(0, i + 1);
        assert(next.drop_last() =~= done);
        assert(next.last() == items@[i as int]);
        if i > 0 {
            out.append(", ");
        }
        push_inline(out, &items[i]);
        proof {
            if i == 0 {
                assert(next.len() == 1);
                assert(next[0] == items@[0]);
                assert(done =~= Seq::<Shown>::empty());
                assert(out@ =~= o + items_form(next));
            } else {
                assert(out@ =~= o + items_form(next));
            }
        }
        i = i + 1;
    }
    assert(items@.subrange(0, n as int) =~= items@);
}

/// Appends the entries of a dict, each as `key: value`, separated by `", "`.
fn push_entries(out: &mut String, entries: &Vec<(DictKey, Shown)>)
    ensures
        final(out)@ == old(out)@ + entries_form(entries@),
    decreases entries, 0int,
{
    let ghost o = out@;
    let n = entries.len();
    let mut i: usize = 0;
    assert(entries@.subrange(0, 0) =~= Seq::<(DictKey, Shown)>::empty());
    assert(o + Seq::<char>::empty() =~= o);
    while i < n
        invariant
            n == entries@.len(),
            i <= n,
            out@ == o + entries_form(entries@.subrange(0, i as int)),
        decreases n - i,
    {
        let ghost done = entries@.subrange(0, i as int);
        let ghost next = entries@.subrange(0, i + 1);
        assert(next.drop_last() =~= done);
        assert(next.last() == entries@[i as int]);
        if i > 0 {
            out.append(", ");
        }
        push_key(out, &entries[i].0);
        out.append(": ");
        push_inline(out, &entries[i].1);
        proof {
            if i == 0 {
                assert(next.len() == 1);
                assert(next[0] == entries@[0]);
                assert(out@ =~= o + entries_form(next));
            } else {
                assert(out@ =~= o + entries_form(next));
            }
        }
        i = i + 1;
    }
    assert(entries@.subrange(0, n as int) =~= entries@);
}

/// The text of a value nested in a container (strings quoted), as
/// `print` writes it.
pub fn inline_text(value: &Shown) -> (res: String)
    ensures
        res@ == inline_form(*value),
{
    let mut out = String::new();
    push_inline(&mut out, value);
    assert(out@ =~= inline_form(*value));
    out
}

/// The text that `print` writes for a value.
pub fn print_text(value: &Shown) -> (res: String)
    ensures
        res@ == print_form(*value),
{
    match value {
        Shown::Str(s) => s.clone(),
        _ => inline_text(value),
    }
}

} // verus!
