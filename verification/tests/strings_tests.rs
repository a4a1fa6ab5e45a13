use quickpython::strings::{
    split_whitespace, string_contains, string_endswith, string_join, string_lower, string_replace, string_split,
    string_startswith, string_strip, string_upper,
};

fn strs(v: &[&str]) -> Vec<String> {
    v.iter().map(|x| x.to_string()).collect()
}

#[test]
fn test_split_on_separator() {
    assert_eq!(string_split("a,b,,c", ","), strs(&["a", "b", "", "c"]));
    assert_eq!(string_split("abc", ","), strs(&["abc"]));
    assert_eq!(string_split("", ","), strs(&[""]));
    assert_eq!(string_split("a--b--", "--"), strs(&["a", "b", ""]));
    assert_eq!(string_split("aaa", "aa"), strs(&["", "a"]));
}

#[test]
fn test_split_on_empty_separator_matches_str_split() {
    assert_eq!(string_split("ab", ""), "ab".split("").map(|p| p.to_string()).collect::<Vec<_>>());
    assert_eq!(string_split("ab", ""), strs(&["", "a", "b", ""]));
}

#[test]
fn test_split_whitespace() {
    assert_eq!(split_whitespace("  hello   world \t\n x "), strs(&["hello", "world", "x"]));
    assert_eq!(split_whitespace("   "), Vec::<String>::new());
    assert_eq!(split_whitespace("a\u{3000}b"), strs(&["a", "b"]));
}

#[test]
fn test_strip() {
    assert_eq!(string_strip("  hi there \n"), "hi there");
    assert_eq!(string_strip("\t\t"), "");
    assert_eq!(string_strip("x"), "x");
    assert_eq!(string_strip("\u{a0}x\u{2009}"), "x");
}

#[test]
fn test_starts_ends_contains() {
    assert!(string_startswith("hello", "he"));
    assert!(!string_startswith("hello", "lo"));
    assert!(string_startswith("hello", ""));
    assert!(string_endswith("hello", "lo"));
    assert!(!string_endswith("lo", "hello"));
    assert!(string_contains("hello", "ell"));
    assert!(!string_contains("hello", "elo"));
    assert!(string_contains("hello", ""));
}

#[test]
fn test_replace() {
    assert_eq!(string_replace("aaa", "a", "b"), "bbb");
    assert_eq!(string_replace("aaaa", "aa", "x"), "xx");
    assert_eq!(string_replace("hello world", "o", "0"), "hell0 w0rld");
    assert_eq!(string_replace("abc", "", "-"), "-a-b-c-");
    assert_eq!(string_replace("abc", "z", "y"), "abc");
}

#[test]
fn test_join() {
    assert_eq!(string_join(", ", &strs(&["a", "b", "c"])), "a, b, c");
    assert_eq!(string_join("-", &strs(&[])), "");
    assert_eq!(string_join("-", &strs(&["only"])), "only");
}

#[test]
fn test_lower_upper() {
    assert_eq!(string_lower("HeLLo ÀÉ"), "hello àé");
    assert_eq!(string_upper("straße"), "STRASSE");
    assert_eq!(string_upper("abc"), "ABC");
}

#[test]
fn test_join_of_split_gives_back_the_string() {
    for (s, sep) in [("a,b,,c", ","), ("aaa", "aa"), ("", "x"), ("abc", ""), ("--a--", "--")] {
        assert_eq!(string_join(sep, &string_split(s, sep)), s);
    }
}

#[test]
fn test_replace_is_join_of_split() {
    for (s, old, new) in [("aaaa", "aa", "x"), ("abc", "", "-"), ("hello world", "o", "0"), ("abc", "z", "y")] {
        assert_eq!(string_replace(s, old, new), string_join(new, &string_split(s, old)));
    }
}

#[test]
fn test_split_has_one_piece_more_than_separators() {
    assert_eq!(string_split("a,b,,c", ",").len(), 4);
    assert_eq!(string_split("", ",").len(), 1);
    assert_eq!(string_split("aaaa", "aa").len(), 3);
    assert_eq!(string_split("aaa", "aa").len(), 2);
}
