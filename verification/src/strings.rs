//! The string methods of the interpreter: `split`, `strip`, `startswith`,
//! `endswith`, `replace`, `join`, `lower`, `upper` and the `in` test.
//!
//! Strings are taken as sequences of Unicode scalar values.
use vstd::prelude::*;
use crate::text::{push_char, to_chars};

verus! {

// ---------------------------------------------------------------------------
// Building strings
// ---------------------------------------------------------------------------

/// The string made of `chars[from..to]`.
pub fn string_of_range(chars: &Vec<char>, from: usize, to: usize) -> (res: String)
    requires
        from <= to <= chars@.len(),
    ensures
        res@ == chars@.subrange(from as int, to as int),
{
    let mut s = String::new();
    let mut i = from;
    while i < to
        invariant
            from <= i <= to,
            to <= chars@.len(),
            s@ == chars@.subrange(from as int, i as int),
        decreases to - i,
    {
        push_char(&mut s, chars[i]);
        i = i + 1;
        assert(s@ =~= chars@.subrange(from as int, i as int));
    }
    s
}

/// Appends `chars[from..to]` to `s`.
fn push_range(s: &mut String, chars: &Vec<char>, from: usize, to: usize)
    requires
        from <= to <= chars@.len(),
    ensures
        final(s)@ == old(s)@ + chars@.subrange(from as int, to as int),
{
    let mut i = from;
    while i < to
        invariant
            from <= i <= to,
            to <= chars@.len(),
            s@ == old(s)@ + chars@.subrange(from as int, i as int),
        decreases to - i,
    {
        push_char(s, chars[i]);
        i = i + 1;
        assert(s@ =~= old(s)@ + chars@.subrange(from as int, i as int));
    }
}

/// The views of a sequence of strings.
pub open spec fn views(v: Seq<String>) -> Seq<Seq<char>> {
    v.map_values(|s: String| s@)
}

// ---------------------------------------------------------------------------
// Whitespace
// ---------------------------------------------------------------------------

/// The characters with the Unicode `White_Space` property.
pub open spec fn is_ws(c: char) -> bool {
    let u = c as u32;
    ||| 0x09 <= u <= 0x0D
    ||| u == 0x20
    ||| u == 0x85
    ||| u == 0xA0
    ||| u == 0x1680
    ||| 0x2000 <= u <= 0x200A
    ||| u == 0x2028
    ||| u == 0x2029
    ||| u == 0x202F
    ||| u == 0x205F
    ||| u == 0x3000
}

/// Whether `c` is a whitespace character.
pub fn is_whitespace(c: char) -> (res: bool)
    ensures
        res == is_ws(c),
{
    let u = c as u32;
    (0x09 <= u && u <= 0x0D) || u == 0x20 || u == 0x85 || u == 0xA0 || u == 0x1680 || (0x2000
        <= u && u <= 0x200A) || u == 0x2028 || u == 0x2029 || u == 0x202F || u == 0x205F || u
        == 0x3000
}

/// `s` without its leading whitespace.
pub open spec fn trim_front(s: Seq<char>) -> Seq<char>
    decreases s.len(),
{
    if s.len() > 0 && is_ws(s[0]) {
        trim_front(s.drop_first())
    } else {
        s
    }
}

/// `s` without its trailing whitespace.
pub open spec fn trim_back(s: Seq<char>) -> Seq<char>
    decreases s.len(),
{
    if s.len() > 0 && is_ws(s.last()) {
        trim_back(s.drop_last())
    } else {
        s
    }
}

/// `s` without leading and trailing whitespace.
pub open spec fn spec_strip(s: Seq<char>) -> Seq<char> {
    trim_back(trim_front(s))
}

proof fn lemma_trim_front_cut(s: Seq<char>) -> (i: int)
    ensures
        0 <= i <= s.len(),
        trim_front(s) == s.subrange(i, s.len() as int),
        forall|k: int| 0 <= k < i ==> is_ws(#[trigger] s[k]),
        i < s.len() ==> !is_ws(s[i]),
    decreases s.len(),
{
    if s.len() > 0 && is_ws(s[0]) {
        let i0 = lemma_trim_front_cut(s.drop_first());
        assert(s.drop_first().subrange(i0, s.drop_first().len() as int) =~= s.subrange(i0 + 1, s.len() as int));
        assert forall|k: int| 0 <= k < i0 + 1 implies is_ws(#[trigger] s[k]) by {
            if k > 0 {
                assert(s[k] == s.drop_first()[k - 1]);
            }
        }
        i0 + 1
    } else {
        assert(s.subrange(0, s.len() as int) =~= s);
        0
    }
}

proof fn lemma_trim_back_cut(s: Seq<char>) -> (j: int)
    ensures
        0 <= j <= s.len(),
        trim_back(s) == s.subrange(0, j),
        forall|k: int| j <= k < s.len() ==> is_ws(#[trigger] s[k]),
        j > 0 ==> !is_ws(s[j - 1]),
    decreases s.len(),
{
    if s.len() > 0 && is_ws(s.last()) {
        let j0 = lemma_trim_back_cut(s.drop_last());
        assert(s.drop_last().subrange(0, j0) =~= s.subrange(0, j0));
        assert forall|k: int| j0 <= k < s.len() implies is_ws(#[trigger] s[k]) by {
            if k < s.len() - 1 {
                assert(s[k] == s.drop_last()[k]);
            }
        }
        j0
    } else {
        assert(s.subrange(0, s.len() as int) =~= s);
        s.len() as int
    }
}

/// `s.strip()` is the part of `s` left when the whitespace at both ends is
/// cut off: a stretch `s[i..j]` with only whitespace before `i` and after
/// `j`, which neither starts nor ends with whitespace.
pub proof fn lemma_strip_cuts_whitespace(s: Seq<char>)
    ensures
        exists|i: int, j: int|
            #![trigger s.subrange(i, j)]
            0 <= i <= j <= s.len() && spec_strip(s) == s.subrange(i, j) && (forall|k: int|
                0 <= k < i ==> is_ws(#[trigger] s[k])) && (forall|k: int| j <= k < s.len() ==> is_ws(
                #[trigger] s[k],
            )) && (i < j ==> !is_ws(s[i]) && !is_ws(s[j - 1])),
{
    let i = lemma_trim_front_cut(s);
    let t = trim_front(s);
    let j0 = lemma_trim_back_cut(t);
    let j = i + j0;
    assert(t.subrange(0, j0) =~= s.subrange(i, j));
    assert forall|k: int| j <= k < s.len() implies is_ws(#[trigger] s[k]) by {
        assert(s[k] == t[k - i]);
    }
    if i < j {
        assert(s[i] == t[0]);
        assert(s[j - 1] == t[j0 - 1]);
        if i == s.len() {
            assert(false);
        }
    }
    assert(spec_strip(s) == s.subrange(i, j));
}

/// `s.strip()`: the string without leading and trailing whitespace.
pub fn string_strip(s: &str) -> (res: String)
    ensures
        res@ == spec_strip(s@),
{
    let chars = to_chars(s);
    let n = chars.len();
    let mut a: usize = 0;
    assert(chars@.subrange(0, n as int) =~= chars@);
    while a < n && is_whitespace(chars[a])
        invariant
            a <= n,
            n == chars@.len(),
            trim_front(chars@) == trim_front(chars@.subrange(a as int, n as int)),
        decreases n - a,
    {
        assert(chars@.subrange(a as int, n as int).drop_first() =~= chars@.subrange(
            a + 1,
            n as int,
        ));
        a = a + 1;
    }
    let ghost front = chars@.subrange(a as int, n as int);
    assert(trim_front(front) == front);
    let mut b: usize = n;
    while b > a && is_whitespace(chars[b - 1])
        invariant
            a <= b <= n,
            n == chars@.len(),
            front == chars@.subrange(a as int, n as int),
            trim_back(front) == trim_back(chars@.subrange(a as int, b as int)),
        decreases b,
    {
        assert(chars@.subrange(a as int, b as int).drop_last() =~= chars@.subrange(
            a as int,
            b - 1,
        ));
        b = b - 1;
    }
    string_of_range(&chars, a, b)
}

/// The end of the run of non-whitespace characters that starts at `i`.
pub open spec fn word_end(s: Seq<char>, i: int) -> int
    decreases s.len() - i,
{
    if 0 <= i < s.len() && !is_ws(s[i]) {
        word_end(s, i + 1)
    } else {
        i
    }
}

/// The end of the word at `i` lies in the string, passes no whitespace, and
/// stops at whitespace when it is not the end of the string.
pub proof fn lemma_word_end(s: Seq<char>, i: int)
    requires
        0 <= i <= s.len(),
    ensures
        i <= word_end(s, i) <= s.len(),
        forall|k: int| i <= k < word_end(s, i) ==> !is_ws(#[trigger] s[k]),
        word_end(s, i) < s.len() ==> is_ws(s[word_end(s, i)]),
    decreases s.len() - i,
{
    if i < s.len() && !is_ws(s[i]) {
        lemma_word_end(s, i + 1);
    }
}

/// The whitespace-separated words of `s[i..]`, in order.
pub open spec fn words_from(s: Seq<char>, i: int) -> Seq<Seq<char>>
    decreases s.len() - i,
{
    if i < 0 || i >= s.len() {
        seq![]
    } else if is_ws(s[i]) {
        words_from(s, i + 1)
    } else {
        proof {
            lemma_word_end(s, i);
        }
        seq![s.subrange(i, word_end(s, i))] + words_from(s, word_end(s, i))
    }
}

/// `s.split()`: the maximal runs of non-whitespace characters, in order.
pub fn split_whitespace(s: &str) -> (res: Vec<String>)
    ensures
        views(res@) == words_from(s@, 0),
{
    let chars = to_chars(s);
    let n = chars.len();
    let mut out: Vec<String> = Vec::new();
    let mut i: usize = 0;
    while i < n
        invariant
            i <= n,
            n == chars@.len(),
            chars@ == s@,
            words_from(s@, 0) == views(out@) + words_from(s@, i as int),
        decreases n - i,
    {
        if is_whitespace(chars[i]) {
            i = i + 1;
        } else {
            let mut j = i + 1;
            while j < n && !is_whitespace(chars[j])
                invariant
                    i < j <= n,
                    n == chars@.len(),
                    word_end(chars@, i as int) == word_end(chars@, j as int),
                decreases n - j,
            {
                j = j + 1;
            }
            let ghost before = views(out@);
            let word = string_of_range(&chars, i, j);
            out.push(word);
            assert(views(out@) =~= before.push(chars@.subrange(i as int, j as int)));
            assert(views(out@) + words_from(s@, j as int) =~= before + words_from(s@, i as int));
            i = j;
        }
    }
    assert(words_from(s@, n as int) == Seq::<Seq<char>>::empty());
    assert(views(out@) + Seq::<Seq<char>>::empty() =~= views(out@));
    out
}

// ---------------------------------------------------------------------------
// Searching
// ---------------------------------------------------------------------------

/// Whether `pat` occurs in `s` at position `i`.
pub open spec fn occurs_at(s: Seq<char>, pat: Seq<char>, i: int) -> bool {
    0 <= i && i + pat.len() <= s.len() && s.subrange(i, i + pat.len()) == pat
}

/// The first position at or after `i` where `pat` occurs in `s`.
pub open spec fn find_from(s: Seq<char>, pat: Seq<char>, i: int) -> Option<int>
    decreases s.len() + 1 - i,
{
    if i < 0 || i + pat.len() > s.len() {
        None
    } else if occurs_at(s, pat, i) {
        Some(i)
    } else {
        find_from(s, pat, i + 1)
    }
}

/// A found position is an occurrence at or after `i`; when none is found,
/// no position at or after `i` is an occurrence.
pub proof fn lemma_find_from(s: Seq<char>, pat: Seq<char>, i: int)
    requires
        0 <= i,
    ensures
        find_from(s, pat, i) matches Some(j) ==> i <= j && occurs_at(s, pat, j) && j + pat.len()
            <= s.len(),
        find_from(s, pat, i) is None ==> forall|k: int| i <= k ==> !occurs_at(s, pat, k),
    decreases s.len() + 1 - i,
{
    if i + pat.len() <= s.len() && !occurs_at(s, pat, i) {
        lemma_find_from(s, pat, i + 1);
        if find_from(s, pat, i) is None {
            assert forall|k: int| i <= k implies !occurs_at(s, pat, k) by {
                if k > i {
                }
            }
        }
    }
}

/// Whether `pat` occurs in `chars` at position `i`.
fn matches_at(chars: &Vec<char>, pat: &Vec<char>, i: usize) -> (res: bool)
    ensures
        res == occurs_at(chars@, pat@, i as int),
{
    if i > chars.len() || pat.len() > chars.len() - i {
        return false;
    }
    let m = pat.len();
    let n = chars.len();
    let mut k: usize = 0;
    while k < m
        invariant
            m == pat@.len(),
            n == chars@.len(),
            i + m <= n,
            k <= m,
            forall|t: int| 0 <= t < k ==> chars@[i + t] == pat@[t],
        decreases m - k,
    {
        if chars[i + k] != pat[k] {
            assert(chars@.subrange(i as int, i + m)[k as int] != pat@[k as int]);
            return false;
        }
        k = k + 1;
    }
    assert(chars@.subrange(i as int, i + m) =~= pat@);
    true
}

/// The first position at or after `from` where `pat` occurs in `chars`.
fn find_chars(chars: &Vec<char>, pat: &Vec<char>, from: usize) -> (res: Option<usize>)
    requires
        from <= chars@.len(),
    ensures
        match find_from(chars@, pat@, from as int) {
            Some(j) => res == Some(j as usize),
            None => res is None,
        },
{
    let n = chars.len();
    let m = pat.len();
    if m > n {
        return None;
    }
    if m == 0 {
        assert(chars@.subrange(from as int, from as int) =~= pat@);
        return Some(from);
    }
    let mut i = from;
    while i <= n - m
        invariant
            from <= i <= n,
            m >= 1,
            n == chars@.len(),
            m == pat@.len(),
            m <= n,
            find_from(chars@, pat@, from as int) == find_from(chars@, pat@, i as int),
        decreases n - i,
    {
        if matches_at(chars, pat, i) {
            return Some(i);
        }
        i = i + 1;
    }
    None
}

/// `needle in s`: whether `needle` occurs in `s`.
pub open spec fn spec_contains(s: Seq<char>, needle: Seq<char>) -> bool {
    exists|i: int| occurs_at(s, needle, i)
}

/// `needle in s`: whether `needle` occurs in `s`.
pub fn string_contains(s: &str, needle: &str) -> (res: bool)
    ensures
        res == spec_contains(s@, needle@),
{
    let chars = to_chars(s);
    let pat = to_chars(needle);
    let r = find_chars(&chars, &pat, 0);
    proof {
        lemma_find_from(s@, needle@, 0);
        if let Some(j) = find_from(s@, needle@, 0) {
            assert(occurs_at(s@, needle@, j));
        } else {
            assert forall|i: int| !occurs_at(s@, needle@, i) by {
                if i >= 0 {
                }
            }
        }
    }
    r.is_some()
}

/// `s.startswith(prefix)`.
pub fn string_startswith(s: &str, prefix: &str) -> (res: bool)
    ensures
        res == occurs_at(s@, prefix@, 0),
{
    let chars = to_chars(s);
    let pat = to_chars(prefix);
    matches_at(&chars, &pat, 0)
}

/// `s.endswith(suffix)`.
pub fn string_endswith(s: &str, suffix: &str) -> (res: bool)
    ensures
        res == (suffix@.len() <= s@.len() && occurs_at(s@, suffix@, s@.len() - suffix@.len())),
{
    let chars = to_chars(s);
    let pat = to_chars(suffix);
    if pat.len() > chars.len() {
        return false;
    }
    matches_at(&chars, &pat, chars.len() - pat.len())
}

// ---------------------------------------------------------------------------
// Splitting, replacing, joining
// ---------------------------------------------------------------------------

/// The pieces of `s[i..]` between the non-overlapping occurrences of a
/// non-empty separator, found from left to right.
pub open spec fn pieces_from(s: Seq<char>, sep: Seq<char>, i: int) -> Seq<Seq<char>>
    decreases s.len() + 1 - i,
{
    if sep.len() == 0 || i < 0 || i > s.len() {
        seq![]
    } else {
        proof {
            lemma_find_from(s, sep, i);
        }
        match find_from(s, sep, i) {
            None => seq![s.subrange(i, s.len() as int)],
            Some(j) => seq![s.subrange(i, j)] + pieces_from(s, sep, j + sep.len()),
        }
    }
}

/// The number of non-overlapping occurrences of a non-empty `sep` in
/// `s[i..]`, found from left to right.
pub open spec fn occurrences_from(s: Seq<char>, sep: Seq<char>, i: int) -> nat
    decreases s.len() + 1 - i,
{
    if sep.len() == 0 || i < 0 || i > s.len() {
        0
    } else {
        proof {
            lemma_find_from(s, sep, i);
        }
        match find_from(s, sep, i) {
            None => 0,
            Some(j) => 1 + occurrences_from(s, sep, j + sep.len()),
        }
    }
}

proof fn lemma_pieces_count(s: Seq<char>, sep: Seq<char>, i: int)
    requires
        sep.len() > 0,
        0 <= i <= s.len(),
    ensures
        pieces_from(s, sep, i).len() == occurrences_from(s, sep, i) + 1,
    decreases s.len() + 1 - i,
{
    lemma_find_from(s, sep, i);
    if let Some(j) = find_from(s, sep, i) {
        lemma_pieces_count(s, sep, j + sep.len());
    }
}

/// Splitting on a non-empty separator gives one piece more than the
/// separator occurs (counting occurrences left to right, without overlap).
pub proof fn lemma_split_count(s: Seq<char>, sep: Seq<char>)
    requires
        sep.len() > 0,
    ensures
        spec_split(s, sep).len() == occurrences_from(s, sep, 0) + 1,
{
    lemma_pieces_count(s, sep, 0);
}

/// Each character of `s` as a one-character string.
pub open spec fn singletons(s: Seq<char>) -> Seq<Seq<char>> {
    s.map_values(|c: char| seq![c])
}

/// `s.split(sep)`: the pieces between the occurrences of `sep`. An empty
/// separator splits before and after every character.
pub open spec fn spec_split(s: Seq<char>, sep: Seq<char>) -> Seq<Seq<char>> {
    if sep.len() == 0 {
        seq![Seq::<char>::empty()] + singletons(s) + seq![Seq::<char>::empty()]
    } else {
        pieces_from(s, sep, 0)
    }
}

/// `s.split(sep)`.
pub fn string_split(s: &str, sep: &str) -> (res: Vec<String>)
    ensures
        views(res@) == spec_split(s@, sep@),
        sep@.len() > 0 ==> res@.len() == occurrences_from(s@, sep@, 0) + 1,
{
    let res = split_pieces(s, sep);
    proof {
        if sep@.len() > 0 {
            lemma_split_count(s@, sep@);
        }
        assert(views(res@).len() == res@.len());
    }
    res
}

/// The pieces of `s.split(sep)`.
fn split_pieces(s: &str, sep: &str) -> (res: Vec<String>)
    ensures
        views(res@) == spec_split(s@, sep@),
{
    let chars = to_chars(s);
    let pat = to_chars(sep);
    let n = chars.len();
    let mut out: Vec<String> = Vec::new();
    if pat.len() == 0 {
        out.push(String::new());
        let mut i: usize = 0;
        while i < n
            invariant
                i <= n,
                n == chars@.len(),
                views(out@) == seq![Seq::<char>::empty()] + singletons(chars@.subrange(0, i as int)),
            decreases n - i,
        {
            let ghost before = views(out@);
            out.push(string_of_range(&chars, i, i + 1));
            assert(views(out@) =~= before.push(chars@.subrange(i as int, i + 1)));
            assert(chars@.subrange(i as int, i + 1) =~= seq![chars@[i as int]]);
            assert(singletons(chars@.subrange(0, i + 1)) =~= singletons(
                chars@.subrange(0, i as int),
            ).push(seq![chars@[i as int]]));
            assert(views(out@) =~= seq![Seq::<char>::empty()] + singletons(
                chars@.subrange(0, i + 1),
            ));
            i = i + 1;
        }
        out.push(String::new());
        assert(chars@.subrange(0, n as int) =~= s@);
        assert(views(out@) =~= spec_split(s@, sep@));
        return out;
    }
    let mut i: usize = 0;
    let m = pat.len();
    loop
        invariant
            i <= n,
            n == chars@.len(),
            m == pat@.len(),
            m > 0,
            chars@ == s@,
            pat@ == sep@,
            spec_split(s@, sep@) == views(out@) + pieces_from(s@, sep@, i as int),
        decreases n + 1 - i,
    {
        proof {
            lemma_find_from(s@, sep@, i as int);
        }
        let ghost before = views(out@);
        match find_chars(&chars, &pat, i) {
            None => {
                out.push(string_of_range(&chars, i, n));
                assert(views(out@) =~= before + pieces_from(s@, sep@, i as int));
                return out;
            },
            Some(j) => {
                out.push(string_of_range(&chars, i, j));
                assert(views(out@) + pieces_from(s@, sep@, (j + m) as int) =~= before
                    + pieces_from(s@, sep@, i as int));
                i = j + m;
            },
        }
    }
}

/// `s` with every non-overlapping occurrence of a non-empty `pat_s` in
/// `s[i..]`, found from left to right, replaced by `rep`.
pub open spec fn replaced_from(s: Seq<char>, pat_s: Seq<char>, rep: Seq<char>, i: int) -> Seq<char>
    decreases s.len() + 1 - i,
{
    if pat_s.len() == 0 || i < 0 || i > s.len() {
        seq![]
    } else {
        proof {
            lemma_find_from(s, pat_s, i);
        }
        match find_from(s, pat_s, i) {
            None => s.subrange(i, s.len() as int),
            Some(j) => s.subrange(i, j) + rep + replaced_from(s, pat_s, rep, j + pat_s.len()),
        }
    }
}

/// `rep` inserted before every character of `s` and once more at the end.
pub open spec fn interleave(s: Seq<char>, rep: Seq<char>) -> Seq<char>
    decreases s.len(),
{
    if s.len() == 0 {
        rep
    } else {
        rep + seq![s[0]] + interleave(s.drop_first(), rep)
    }
}

/// `s.replace(pat_s, rep)`.
pub open spec fn spec_replace(s: Seq<char>, pat_s: Seq<char>, rep: Seq<char>) -> Seq<char> {
    if pat_s.len() == 0 {
        interleave(s, rep)
    } else {
        replaced_from(s, pat_s, rep, 0)
    }
}

/// `s.replace(pat_s, rep)`: every occurrence of `pat_s`, from left to right and
/// without overlaps, replaced by `rep`. An empty `pat_s` matches before every
/// character and at the end.
pub fn string_replace(s: &str, pat_s: &str, replacement: &str) -> (res: String)
    ensures
        res@ == spec_replace(s@, pat_s@, replacement@),
{
    let chars = to_chars(s);
    let pat = to_chars(pat_s);
    let rep = to_chars(replacement);
    let n = chars.len();
    let mut out = String::new();
    if pat.len() == 0 {
        let mut i: usize = 0;
        assert(chars@.subrange(0, n as int) =~= chars@);
        assert(out@ =~= Seq::<char>::empty());
        while i < n
            invariant
                i <= n,
                n == chars@.len(),
                chars@ == s@,
                rep@ == replacement@,
                interleave(s@, replacement@) == out@ + interleave(chars@.subrange(i as int, n as int), replacement@),
            decreases n - i,
        {
            let ghost rest = chars@.subrange(i as int, n as int);
            assert(rest.drop_first() =~= chars@.subrange(i + 1, n as int));
            push_range(&mut out, &rep, 0, rep.len());
            push_char(&mut out, chars[i]);
            assert(rep@.subrange(0, rep@.len() as int) =~= replacement@);
            i = i + 1;
            assert(interleave(s@, replacement@) =~= out@ + interleave(
                chars@.subrange(i as int, n as int),
                replacement@,
            ));
        }
        push_range(&mut out, &rep, 0, rep.len());
        assert(rep@.subrange(0, rep@.len() as int) =~= replacement@);
        assert(chars@.subrange(n as int, n as int) =~= Seq::<char>::empty());
        assert(out@ =~= interleave(s@, replacement@));
        return out;
    }
    let m = pat.len();
    let mut i: usize = 0;
    loop
        invariant
            i <= n,
            n == chars@.len(),
            m == pat@.len(),
            m > 0,
            chars@ == s@,
            pat@ == pat_s@,
            rep@ == replacement@,
            spec_replace(s@, pat_s@, replacement@) == out@ + replaced_from(s@, pat_s@, replacement@, i as int),
        decreases n + 1 - i,
    {
        proof {
            lemma_find_from(s@, pat_s@, i as int);
        }
        let ghost before = out@;
        match find_chars(&chars, &pat, i) {
            None => {
                push_range(&mut out, &chars, i, n);
                assert(out@ =~= before + replaced_from(s@, pat_s@, replacement@, i as int));
                return out;
            },
            Some(j) => {
                push_range(&mut out, &chars, i, j);
                push_range(&mut out, &rep, 0, rep.len());
                assert(rep@.subrange(0, rep@.len() as int) =~= replacement@);
                assert(out@ + replaced_from(s@, pat_s@, replacement@, (j + m) as int) =~= before
                    + replaced_from(s@, pat_s@, replacement@, i as int));
                i = j + m;
            },
        }
    }
}

/// The strings of `parts` with `sep` between each two of them.
pub open spec fn spec_join(parts: Seq<Seq<char>>, sep: Seq<char>) -> Seq<char>
    decreases parts.len(),
{
    if parts.len() == 0 {
        seq![]
    } else if parts.len() == 1 {
        parts[0]
    } else {
        spec_join(parts.drop_last(), sep) + sep + parts.last()
    }
}

/// `sep.join(parts)`.
pub fn string_join(sep: &str, parts: &Vec<String>) -> (res: String)
    ensures
        res@ == spec_join(views(parts@), sep@),
{
    let mut out = String::new();
    let n = parts.len();
    let mut i: usize = 0;
    while i < n
        invariant
            i <= n,
            n == parts@.len(),
            out@ == spec_join(views(parts@.subrange(0, i as int)), sep@),
        decreases n - i,
    {
        let ghost prev = views(parts@.subrange(0, i as int));
        let ghost next = views(parts@.subrange(0, i + 1));
        assert(next.drop_last() =~= prev);
        assert(next.last() == parts@[i as int]@);
        if i > 0 {
            out.append(sep);
        }
        out.append(parts[i].as_str());
        i = i + 1;
        assert(out@ =~= spec_join(next, sep@));
    }
    assert(parts@.subrange(0, n as int) =~= parts@);
    out
}

/// Joining `a` in front of a non-empty list adds `a` and one separator.
proof fn lemma_join_cons(a: Seq<char>, rest: Seq<Seq<char>>, sep: Seq<char>)
    requires
        rest.len() > 0,
    ensures
        spec_join(seq![a] + rest, sep) == a + sep + spec_join(rest, sep),
    decreases rest.len(),
{
    let whole = seq![a] + rest;
    if rest.len() == 1 {
        assert(whole.drop_last() =~= seq![a]);
        assert(spec_join(rest, sep) == rest[0]);
        assert(a + sep + rest[0] =~= spec_join(seq![a], sep) + sep + whole.last());
    } else {
        assert(whole.drop_last() =~= seq![a] + rest.drop_last());
        lemma_join_cons(a, rest.drop_last(), sep);
        assert(spec_join(rest, sep) == spec_join(rest.drop_last(), sep) + sep + rest.last());
        assert(a + sep + spec_join(rest, sep) =~= spec_join(seq![a] + rest.drop_last(), sep) + sep
            + rest.last());
    }
}

/// Splitting from a position inside the string gives at least one piece.
proof fn lemma_pieces_nonempty(s: Seq<char>, sep: Seq<char>, i: int)
    requires
        sep.len() > 0,
        0 <= i <= s.len(),
    ensures
        pieces_from(s, sep, i).len() >= 1,
{
    lemma_find_from(s, sep, i);
}

/// Joining the pieces of `s[i..]` with `rep` replaces each occurrence of `sep`.
proof fn lemma_join_pieces(s: Seq<char>, sep: Seq<char>, rep: Seq<char>, i: int)
    requires
        sep.len() > 0,
        0 <= i <= s.len(),
    ensures
        spec_join(pieces_from(s, sep, i), rep) == replaced_from(s, sep, rep, i),
    decreases s.len() + 1 - i,
{
    lemma_find_from(s, sep, i);
    match find_from(s, sep, i) {
        None => {},
        Some(j) => {
            let k = j + sep.len();
            lemma_join_pieces(s, sep, rep, k);
            lemma_pieces_nonempty(s, sep, k);
            lemma_join_cons(s.subrange(i, j), pieces_from(s, sep, k), rep);
            assert(s.subrange(i, j) + rep + spec_join(pieces_from(s, sep, k), rep)
                =~= s.subrange(i, j) + rep + replaced_from(s, sep, rep, k));
        },
    }
}

/// Joining `x`, the characters of `t` and an empty string with `rep`.
proof fn lemma_join_singletons(x: Seq<char>, t: Seq<char>, rep: Seq<char>)
    ensures
        spec_join(seq![x] + singletons(t) + seq![Seq::<char>::empty()], rep) == x + interleave(t, rep),
    decreases t.len(),
{
    let e = Seq::<char>::empty();
    if t.len() == 0 {
        assert(seq![x] + singletons(t) + seq![e] =~= seq![x, e]);
        assert(seq![x, e].drop_last() =~= seq![x]);
        assert(spec_join(seq![x], rep) == x);
        assert(spec_join(seq![x, e], rep) == x + rep + e);
        assert(x + rep + e =~= x + interleave(t, rep));
    } else {
        let c = seq![t[0]];
        let rest = seq![c] + singletons(t.drop_first()) + seq![e];
        assert(singletons(t) =~= seq![c] + singletons(t.drop_first()));
        assert(seq![x] + singletons(t) + seq![e] =~= seq![x] + rest);
        lemma_join_cons(x, rest, rep);
        lemma_join_singletons(c, t.drop_first(), rep);
        assert(x + rep + (c + interleave(t.drop_first(), rep)) =~= x + interleave(t, rep));
    }
}

/// `s.replace(old, new)` is `new.join(s.split(old))`, for every `old`, empty or
/// not.
pub proof fn lemma_replace_is_join_of_split(s: Seq<char>, old: Seq<char>, new: Seq<char>)
    ensures
        spec_replace(s, old, new) == spec_join(spec_split(s, old), new),
{
    if old.len() == 0 {
        lemma_join_singletons(Seq::<char>::empty(), s, new);
        assert(Seq::<char>::empty() + interleave(s, new) =~= interleave(s, new));
    } else {
        lemma_join_pieces(s, old, new, 0);
    }
}

/// Replacing every occurrence of `sep` in `s[i..]` by itself gives `s[i..]`.
proof fn lemma_replace_same(s: Seq<char>, sep: Seq<char>, i: int)
    requires
        sep.len() > 0,
        0 <= i <= s.len(),
    ensures
        replaced_from(s, sep, sep, i) == s.subrange(i, s.len() as int),
    decreases s.len() + 1 - i,
{
    lemma_find_from(s, sep, i);
    match find_from(s, sep, i) {
        None => {},
        Some(j) => {
            lemma_replace_same(s, sep, j + sep.len());
            assert(s.subrange(i, j) + sep + s.subrange(j + sep.len(), s.len() as int)
                =~= s.subrange(i, s.len() as int));
        },
    }
}

/// Interleaving with the empty string changes nothing.
proof fn lemma_interleave_empty(s: Seq<char>)
    ensures
        interleave(s, Seq::<char>::empty()) == s,
    decreases s.len(),
{
    if s.len() > 0 {
        lemma_interleave_empty(s.drop_first());
        assert(Seq::<char>::empty() + seq![s[0]] + s.drop_first() =~= s);
    }
}

/// `sep.join(s.split(sep))` gives `s` back, for every separator.
pub proof fn lemma_join_split_roundtrip(s: Seq<char>, sep: Seq<char>)
    ensures
        spec_join(spec_split(s, sep), sep) == s,
{
    lemma_replace_is_join_of_split(s, sep, sep);
    if sep.len() == 0 {
        assert(sep =~= Seq::<char>::empty());
        lemma_interleave_empty(s);
    } else {
        lemma_replace_same(s, sep, 0);
        assert(s.subrange(0, s.len() as int) =~= s);
    }
}

// ---------------------------------------------------------------------------
// Case mapping
// ---------------------------------------------------------------------------

/// The full Unicode lower-case mapping of a string, as `str::to_lowercase`
/// computes it.
pub uninterp spec fn lowercase_of(s: Seq<char>) -> Seq<char>;

/// The full Unicode upper-case mapping of a string, as `str::to_uppercase`
/// computes it.
pub uninterp spec fn uppercase_of(s: Seq<char>) -> Seq<char>;

/// `str::to_lowercase` from std: the lower-case mapping of the whole string,
/// which depends on the string alone (no locale). Nothing more is stated of
/// the mapping itself.
#[verifier::external_body]
fn to_lowercase(s: &str) -> (res: String)
    ensures
        res@ == lowercase_of(s@),
{
    s.to_lowercase()
}

/// `str::to_uppercase` from std: the upper-case mapping of the whole string,
/// which depends on the string alone (no locale). Nothing more is stated of
/// the mapping itself.
#[verifier::external_body]
fn to_uppercase(s: &str) -> (res: String)
    ensures
        res@ == uppercase_of(s@),
{
    s.to_uppercase()
}

/// `s.lower()`.
pub fn string_lower(s: &str) -> (res: String)
    ensures
        res@ == lowercase_of(s@),
{
    to_lowercase(s)
}

/// `s.upper()`.
pub fn string_upper(s: &str) -> (res: String)
    ensures
        res@ == uppercase_of(s@),
{
    to_uppercase(s)
}

} // verus!
