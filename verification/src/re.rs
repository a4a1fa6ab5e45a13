//! The `re` module: `match`, `search`, `findall`, `sub`, `subn`, `split` and
//! `compile`, on top of the `regex` crate.
//!
//! Each function takes its arguments as the interpreter hands them over: the
//! text of each argument that is a string, `None` for any other value.
use vstd::prelude::*;
use crate::value::{raised, ExceptionType, ExceptionValue, MatchObject, Raised};

verus! {

#[verifier::external_type_specification]
#[verifier::external_body]
pub struct ExRegex(regex::Regex);

/// A compiled regular expression together with the pattern it was compiled
/// from. The only way to make one is [`compile`], so the regex inside is
/// always the compilation of the pattern that the view gives.
pub struct Pattern {
    regex: regex::Regex,
    source: Ghost<Seq<char>>,
}

impl View for Pattern {
    type V = Seq<char>;

    closed spec fn view(&self) -> Seq<char> {
        self.source@
    }
}

/// Why `regex::Regex::new` refuses a pattern (the text of its error), or
/// `None` when it compiles it.
pub uninterp spec fn pattern_error(pattern: Seq<char>) -> Option<Seq<char>>;

/// The first match of a pattern in a text: its start and end (byte offsets)
/// and the text of each capture group, `None` for a group that took no part.
pub uninterp spec fn first_match(pattern: Seq<char>, text: Seq<char>) -> Option<(nat, nat, Seq<Option<Seq<char>>>)>;

/// The text of each successive non-overlapping match of a pattern.
pub uninterp spec fn match_texts(pattern: Seq<char>, text: Seq<char>) -> Seq<Seq<char>>;

/// The text with every non-overlapping match of a pattern replaced by
/// `repl`, in which `$name` and `${name}` stand for capture groups.
pub uninterp spec fn replaced_text(pattern: Seq<char>, text: Seq<char>, repl: Seq<char>) -> Seq<char>;

/// The number of non-overlapping matches of a pattern in a text.
pub uninterp spec fn match_count(pattern: Seq<char>, text: Seq<char>) -> nat;

/// The pieces of a text between the matches of a pattern.
pub uninterp spec fn split_texts(pattern: Seq<char>, text: Seq<char>) -> Seq<Seq<char>>;

/// The texts of capture groups.
pub open spec fn group_views(gs: Seq<Option<String>>) -> Seq<Option<Seq<char>>> {
    gs.map_values(|g: Option<String>| match g {
        Some(s) => Some(s@),
        None => None,
    })
}

/// The texts of a list of strings.
pub open spec fn text_views(v: Seq<String>) -> Seq<Seq<char>> {
    v.map_values(|s: String| s@)
}

/// `regex::Regex::new`: compiles a pattern, or fails with an error whose
/// text (`Display`) is returned. Whether it fails, and with which text,
/// depends on the pattern alone; nothing more is stated of either.
#[verifier::external_body]
fn regex_new(pattern: &str) -> (res: Result<regex::Regex, String>)
    ensures
        match pattern_error(pattern@) {
            None => res is Ok,
            Some(m) => res matches Err(e) && e@ == m,
        },
{
    regex::Regex::new(pattern).map_err(|e| e.to_string())
}

/// Group 0 of a match is the whole match: the text between its byte
/// offsets `start` and `end` in the UTF-8 encoding of `text`.
pub open spec fn whole_match(text: Seq<char>, start: nat, end: nat, groups: Seq<Option<Seq<char>>>) -> bool {
    &&& start <= end <= vstd::utf8::encode_utf8(text).len()
    &&& groups.len() >= 1
    &&& groups[0] matches Some(g) && vstd::utf8::encode_utf8(g) == vstd::utf8::encode_utf8(
        text,
    ).subrange(start as int, end as int)
}

/// `regex::Regex::captures` on the pattern's regex: the leftmost-first match
/// with its groups. As the crate documents, group 0, the whole match, is
/// always present and is the text between the match's byte offsets.
#[verifier::external_body]
fn regex_captures(p: &Pattern, text: &str) -> (res: Option<(usize, usize, Vec<Option<String>>)>)
    ensures
        match first_match(p@, text@) {
            None => res is None,
            Some(m) => res matches Some(r) && r.0 == m.0 && r.1 == m.1 && group_views(r.2@) == m.2,
        },
        res matches Some(r) ==> whole_match(text@, r.0 as nat, r.1 as nat, group_views(r.2@)),
{
    p.regex.captures(text).map(|c| {
        let m = c.get(0).unwrap();
        (m.start(), m.end(), c.iter().map(|g| g.map(|x| x.as_str().to_string())).collect())
    })
}

/// `regex::Regex::captures_iter` on the pattern's regex, each match taken
/// by the text of group 0.
#[verifier::external_body]
fn regex_match_texts(p: &Pattern, text: &str) -> (res: Vec<String>)
    ensures
        text_views(res@) == match_texts(p@, text@),
{
    p.regex.captures_iter(text).map(|c| c.get(0).unwrap().as_str().to_string()).collect()
}

/// `regex::Regex::replace_all` on the pattern's regex, with `repl` as the
/// replacement string.
#[verifier::external_body]
fn regex_replace_all(p: &Pattern, text: &str, repl: &str) -> (res: String)
    ensures
        res@ == replaced_text(p@, text@, repl@),
{
    p.regex.replace_all(text, repl).to_string()
}

/// `regex::Regex::find_iter` on the pattern's regex, counted.
#[verifier::external_body]
fn regex_count(p: &Pattern, text: &str) -> (res: usize)
    ensures
        res == match_count(p@, text@),
{
    p.regex.find_iter(text).count()
}

/// `regex::Regex::split` on the pattern's regex.
#[verifier::external_body]
fn regex_split(p: &Pattern, text: &str) -> (res: Vec<String>)
    ensures
        text_views(res@) == split_texts(p@, text@),
{
    p.regex.split(text).map(|s| s.to_string()).collect()
}

/// Compiles a pattern, or fails with the text of the error.
pub fn compile(pattern: &str) -> (res: Result<Pattern, String>)
    ensures
        match pattern_error(pattern@) {
            None => res matches Ok(p) && p@ == pattern@,
            Some(m) => res matches Err(e) && e@ == m,
        },
{
    match regex_new(pattern) {
        Ok(regex) => Ok(Pattern { regex, source: Ghost(pattern@) }),
        Err(e) => Err(e),
    }
}

/// The text of argument `i`, or a `TypeError` naming it `what`.
pub open spec fn text_arg(args: Seq<Option<String>>, i: int, what: Seq<char>) -> Result<Seq<char>, Raised> {
    match args[i] {
        Some(s) => Ok(s@),
        None => Err((ExceptionType::TypeError, what + " must be a string"@)),
    }
}

/// The pattern, once it is known to compile; a `ValueError` otherwise.
pub open spec fn compiled_spec(pattern: Seq<char>) -> Result<Seq<char>, Raised> {
    match pattern_error(pattern) {
        None => Ok(pattern),
        Some(m) => Err((ExceptionType::ValueError, "Invalid regex pattern: "@ + m)),
    }
}

/// The pattern and text of a call with at least two arguments, both strings,
/// the pattern one that compiles; `usage` is the `TypeError` for fewer
/// arguments.
pub open spec fn pattern_and_text(args: Seq<Option<String>>, usage: Seq<char>) -> Result<
    (Seq<char>, Seq<char>),
    Raised,
> {
    if args.len() < 2 {
        Err((ExceptionType::TypeError, usage))
    } else {
        match text_arg(args, 0, "pattern"@) {
            Err(r) => Err(r),
            Ok(p) => match text_arg(args, 1, "string"@) {
                Err(r) => Err(r),
                Ok(t) => match compiled_spec(p) {
                    Err(r) => Err(r),
                    Ok(_) => Ok((p, t)),
                },
            },
        }
    }
}

/// The pattern, replacement and text of a call with at least three
/// arguments, all strings, the pattern one that compiles.
pub open spec fn pattern_repl_text(args: Seq<Option<String>>, usage: Seq<char>) -> Result<
    (Seq<char>, Seq<char>, Seq<char>),
    Raised,
> {
    if args.len() < 3 {
        Err((ExceptionType::TypeError, usage))
    } else {
        match text_arg(args, 0, "pattern"@) {
            Err(r) => Err(r),
            Ok(p) => match text_arg(args, 1, "repl"@) {
                Err(r) => Err(r),
                Ok(rep) => match text_arg(args, 2, "string"@) {
                    Err(r) => Err(r),
                    Ok(t) => match compiled_spec(p) {
                        Err(r) => Err(r),
                        Ok(_) => Ok((p, rep, t)),
                    },
                },
            },
        }
    }
}

/// The text of argument `i`, or a `TypeError` naming it `what`.
fn text_of<'a>(args: &'a Vec<Option<String>>, i: usize, what: &str) -> (res: Result<
    &'a String,
    ExceptionValue,
>)
    requires
        i < args@.len(),
    ensures
        match text_arg(args@, i as int, what@) {
            Ok(t) => res matches Ok(s) && s@ == t,
            Err(r) => res matches Err(e) && raised(e) == r && e.traceback is None,
        },
{
    match &args[i] {
        Some(s) => Ok(s),
        None => {
            let mut m = String::from_str(what);
            m.append(" must be a string");
            Err(ExceptionValue::new(ExceptionType::TypeError, m))
        },
    }
}

/// The compiled pattern, or a `ValueError` with the compiler's message.
fn compile_checked(pattern: &str) -> (res: Result<Pattern, ExceptionValue>)
    ensures
        match compiled_spec(pattern@) {
            Ok(p) => res matches Ok(c) && c@ == p,
            Err(r) => res matches Err(e) && raised(e) == r && e.traceback is None,
        },
{
    match compile(pattern) {
        Ok(p) => Ok(p),
        Err(msg) => {
            let mut m = String::from_str("Invalid regex pattern: ");
            m.append(msg.as_str());
            Err(ExceptionValue::new(ExceptionType::ValueError, m))
        },
    }
}

/// The compiled pattern and the text of a two-argument call.
fn compile_with_text<'a>(args: &'a Vec<Option<String>>, usage: &str) -> (res: Result<
    (Pattern, &'a String),
    ExceptionValue,
>)
    ensures
        match pattern_and_text(args@, usage@) {
            Ok((p, t)) => res matches Ok(r) && r.0@ == p && r.1@ == t,
            Err(r) => res matches Err(e) && raised(e) == r && e.traceback is None,
        },
{
    proof {
        reveal_strlit("pattern");
        reveal_strlit("string");
    }
    if args.len() < 2 {
        return Err(ExceptionValue::new(ExceptionType::TypeError, String::from_str(usage)));
    }
    let pattern = text_of(args, 0, "pattern")?;
    let text = text_of(args, 1, "string")?;
    let p = compile_checked(pattern.as_str())?;
    Ok((p, text))
}

/// The compiled pattern, the replacement and the text of a three-argument
/// call.
fn compile_with_repl<'a>(args: &'a Vec<Option<String>>, usage: &str) -> (res: Result<
    (Pattern, &'a String, &'a String),
    ExceptionValue,
>)
    ensures
        match pattern_repl_text(args@, usage@) {
            Ok((p, rep, t)) => res matches Ok(r) && r.0@ == p && r.1@ == rep && r.2@ == t,
            Err(r) => res matches Err(e) && raised(e) == r && e.traceback is None,
        },
{
    proof {
        reveal_strlit("pattern");
        reveal_strlit("repl");
        reveal_strlit("string");
    }
    if args.len() < 3 {
        return Err(ExceptionValue::new(ExceptionType::TypeError, String::from_str(usage)));
    }
    let pattern = text_of(args, 0, "pattern")?;
    let repl = text_of(args, 1, "repl")?;
    let text = text_of(args, 2, "string")?;
    let p = compile_checked(pattern.as_str())?;
    Ok((p, repl, text))
}

/// A match object as its text, span and groups.
pub open spec fn match_view(m: MatchObject) -> (Seq<char>, nat, nat, Seq<Option<Seq<char>>>) {
    (m.text@, m.start as nat, m.end as nat, group_views(m.groups@))
}

/// What `re.match(pattern, string)` finds: the first match of the pattern,
/// when it starts at the beginning of the text.
pub open spec fn match_at_start(p: Seq<char>, t: Seq<char>) -> Option<(Seq<char>, nat, nat, Seq<Option<Seq<char>>>)> {
    match first_match(p, t) {
        Some((s, e, gs)) => if s == 0 {
            Some((t, s, e, gs))
        } else {
            None
        },
        None => None,
    }
}

/// What `re.search(pattern, string)` finds: the first match of the pattern.
pub open spec fn match_anywhere(p: Seq<char>, t: Seq<char>) -> Option<(Seq<char>, nat, nat, Seq<Option<Seq<char>>>)> {
    match first_match(p, t) {
        Some((s, e, gs)) => Some((t, s, e, gs)),
        None => None,
    }
}

/// `re.match` finds exactly what `re.search` finds when that starts at the
/// beginning of the text, and nothing otherwise.
pub proof fn lemma_match_is_search_at_start(p: Seq<char>, t: Seq<char>)
    ensures
        match_at_start(p, t) == (match match_anywhere(p, t) {
            Some(m) => if m.1 == 0 {
                Some(m)
            } else {
                None
            },
            None => None,
        }),
{
}

/// A match object for the first match of `p` in `text`, if there is one;
/// only one that starts at 0 when `at_start`.
fn first_match_object(p: &Pattern, text: &String, at_start: bool) -> (res: Option<MatchObject>)
    ensures
        match (if at_start {
            match_at_start(p@, text@)
        } else {
            match_anywhere(p@, text@)
        }) {
            None => res is None,
            Some(m) => res matches Some(o) && match_view(o) == m,
        },
        res matches Some(o) ==> whole_match(o.text@, o.start as nat, o.end as nat, group_views(o.groups@)),
{
    match regex_captures(p, text.as_str()) {
        None => None,
        Some((start, end, groups)) => {
            if at_start && start != 0 {
                None
            } else {
                Some(MatchObject::new(text.clone(), start, end, groups))
            }
        },
    }
}

/// `re.match(pattern, string)`: a match object when the pattern matches at
/// the start of the text, else `None`.
pub fn re_match(args: &Vec<Option<String>>) -> (res: Result<Option<MatchObject>, ExceptionValue>)
    ensures
        match pattern_and_text(args@, "match() requires 2 arguments: pattern and string"@) {
            Err(r) => res matches Err(e) && raised(e) == r && e.traceback is None,
            Ok((p, t)) => match match_at_start(p, t) {
                None => res matches Ok(o) && o is None,
                Some(m) => res matches Ok(o) && o matches Some(mo) && match_view(mo) == m,
            },
        },
        res matches Ok(Some(mo)) ==> whole_match(mo.text@, mo.start as nat, mo.end as nat, group_views(
            mo.groups@,
        )),
{
    let (p, text) = compile_with_text(args, "match() requires 2 arguments: pattern and string")?;
    Ok(first_match_object(&p, text, true))
}

/// `re.search(pattern, string)`: a match object for the first match of the
/// pattern anywhere in the text, else `None`.
pub fn re_search(args: &Vec<Option<String>>) -> (res: Result<Option<MatchObject>, ExceptionValue>)
    ensures
        match pattern_and_text(args@, "search() requires 2 arguments: pattern and string"@) {
            Err(r) => res matches Err(e) && raised(e) == r && e.traceback is None,
            Ok((p, t)) => match match_anywhere(p, t) {
                None => res matches Ok(o) && o is None,
                Some(m) => res matches Ok(o) && o matches Some(mo) && match_view(mo) == m,
            },
        },
        res matches Ok(Some(mo)) ==> whole_match(mo.text@, mo.start as nat, mo.end as nat, group_views(
            mo.groups@,
        )),
{
    let (p, text) = compile_with_text(args, "search() requires 2 arguments: pattern and string")?;
    Ok(first_match_object(&p, text, false))
}

/// `re.findall(pattern, string)`: the text of every non-overlapping match.
pub fn re_findall(args: &Vec<Option<String>>) -> (res: Result<Vec<String>, ExceptionValue>)
    ensures
        match pattern_and_text(args@, "findall() requires 2 arguments: pattern and string"@) {
            Err(r) => res matches Err(e) && raised(e) == r && e.traceback is None,
            Ok((p, t)) => res matches Ok(v) && text_views(v@) == match_texts(p, t),
        },
{
    let (p, text) = compile_with_text(args, "findall() requires 2 arguments: pattern and string")?;
    Ok(regex_match_texts(&p, text.as_str()))
}

/// `re.sub(pattern, repl, string)`: the text with every match replaced.
pub fn re_sub(args: &Vec<Option<String>>) -> (res: Result<String, ExceptionValue>)
    ensures
        match pattern_repl_text(args@, "sub() requires 3 arguments: pattern, repl, and string"@) {
            Err(r) => res matches Err(e) && raised(e) == r && e.traceback is None,
            Ok((p, rep, t)) => res matches Ok(s) && s@ == replaced_text(p, t, rep),
        },
{
    let (p, repl, text) = compile_with_repl(
        args,
        "sub() requires 3 arguments: pattern, repl, and string",
    )?;
    Ok(regex_replace_all(&p, text.as_str(), repl.as_str()))
}

/// `re.subn(pattern, repl, string)`: the text with every match replaced,
/// and the number of matches (as a 32-bit integer, wrapping).
pub fn re_subn(args: &Vec<Option<String>>) -> (res: Result<(String, i32), ExceptionValue>)
    ensures
        match pattern_repl_text(args@, "subn() requires 3 arguments: pattern, repl, and string"@) {
            Err(r) => res matches Err(e) && raised(e) == r && e.traceback is None,
            Ok((p, rep, t)) => res matches Ok(pair) && pair.0@ == replaced_text(p, t, rep)
                && pair.1 == match_count(p, t) as i32,
        },
{
    let (p, repl, text) = compile_with_repl(
        args,
        "subn() requires 3 arguments: pattern, repl, and string",
    )?;
    let count = regex_count(&p, text.as_str());
    let result = regex_replace_all(&p, text.as_str(), repl.as_str());
    Ok((result, count as i32))
}

/// `re.split(pattern, string)`: the pieces of the text between the matches.
pub fn re_split(args: &Vec<Option<String>>) -> (res: Result<Vec<String>, ExceptionValue>)
    ensures
        match pattern_and_text(args@, "split() requires 2 arguments: pattern and string"@) {
            Err(r) => res matches Err(e) && raised(e) == r && e.traceback is None,
            Ok((p, t)) => res matches Ok(v) && text_views(v@) == split_texts(p, t),
        },
{
    let (p, text) = compile_with_text(args, "split() requires 2 arguments: pattern and string")?;
    Ok(regex_split(&p, text.as_str()))
}

/// What `re.compile(pattern)` gives: the pattern, once it is known to be a
/// string that compiles.
pub open spec fn compile_spec(args: Seq<Option<String>>) -> Result<Seq<char>, Raised> {
    if args.len() == 0 {
        Err((ExceptionType::TypeError, "compile() missing required argument: 'pattern'"@))
    } else {
        match text_arg(args, 0, "pattern"@) {
            Err(r) => Err(r),
            Ok(p) => compiled_spec(p),
        }
    }
}

/// `re.compile(pattern)`: the compiled pattern.
pub fn re_compile(args: &Vec<Option<String>>) -> (res: Result<Pattern, ExceptionValue>)
    ensures
        match compile_spec(args@) {
            Err(r) => res matches Err(e) && raised(e) == r && e.traceback is None,
            Ok(p) => res matches Ok(c) && c@ == p,
        },
{
    proof {
        reveal_strlit("pattern");
    }
    if args.len() == 0 {
        return Err(
            ExceptionValue::new(
                ExceptionType::TypeError,
                String::from_str("compile() missing required argument: 'pattern'"),
            ),
        );
    }
    let pattern = text_of(args, 0, "pattern")?;
    compile_checked(pattern.as_str())
}

} // verus!
