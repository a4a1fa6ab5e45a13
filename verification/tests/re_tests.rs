use quickpython::re::{re_compile, re_findall, re_match, re_search, re_split, re_sub, re_subn};
use quickpython::value::{ExceptionType, ExceptionValue};

fn args(v: &[Option<&str>]) -> Vec<Option<String>> {
    v.iter().map(|a| a.map(|s| s.to_string())).collect()
}

fn error_of<T>(r: Result<T, ExceptionValue>) -> (ExceptionType, String) {
    match r {
        Ok(_) => panic!("expected an exception"),
        Err(e) => (e.exception_type, e.message),
    }
}

#[test]
fn test_re_match_only_at_start() {
    let m = re_match(&args(&[Some(r"(\w+)@(\w+)"), Some("joe@example rest")])).ok().unwrap().unwrap();
    assert_eq!((m.start, m.end), (0, 11));
    assert_eq!(m.text, "joe@example rest");
    assert_eq!(m.groups, vec![Some("joe@example".to_string()), Some("joe".to_string()), Some("example".to_string())]);
    assert!(re_match(&args(&[Some(r"\d+"), Some("abc 123")])).ok().unwrap().is_none());
}

#[test]
fn test_re_search_anywhere() {
    let m = re_search(&args(&[Some(r"\d+"), Some("abc 123 45")])).ok().unwrap().unwrap();
    assert_eq!((m.start, m.end), (4, 7));
    assert_eq!(m.groups, vec![Some("123".to_string())]);
    let m = re_search(&args(&[Some(r"a(x)?b"), Some("zab")])).ok().unwrap().unwrap();
    assert_eq!(m.groups, vec![Some("ab".to_string()), None]);
    assert!(re_search(&args(&[Some("q"), Some("abc")])).ok().unwrap().is_none());
}

#[test]
fn test_re_findall_sub_subn_split() {
    assert_eq!(re_findall(&args(&[Some(r"\d+"), Some("a1b22c333")])).ok().unwrap(), vec!["1", "22", "333"]);
    assert_eq!(
        re_sub(&args(&[Some(r"(\w+) (\w+)"), Some("$2 $1"), Some("hello world")])).ok().unwrap(),
        "world hello"
    );
    assert_eq!(re_subn(&args(&[Some("a"), Some("o"), Some("banana")])).ok().unwrap(), ("bonono".to_string(), 3));
    assert_eq!(re_split(&args(&[Some(r",\s*"), Some("a, b,c")])).ok().unwrap(), vec!["a", "b", "c"]);
}

#[test]
fn test_re_argument_errors() {
    assert_eq!(
        error_of(re_match(&args(&[Some("a")]))),
        (ExceptionType::TypeError, "match() requires 2 arguments: pattern and string".to_string())
    );
    assert_eq!(
        error_of(re_search(&args(&[None, Some("a")]))),
        (ExceptionType::TypeError, "pattern must be a string".to_string())
    );
    assert_eq!(
        error_of(re_findall(&args(&[Some("a"), None]))),
        (ExceptionType::TypeError, "string must be a string".to_string())
    );
    assert_eq!(
        error_of(re_sub(&args(&[Some("a"), None, Some("b")]))),
        (ExceptionType::TypeError, "repl must be a string".to_string())
    );
    assert_eq!(
        error_of(re_subn(&args(&[Some("a"), Some("b")]))),
        (ExceptionType::TypeError, "subn() requires 3 arguments: pattern, repl, and string".to_string())
    );
    assert_eq!(
        error_of(re_compile(&args(&[]))),
        (ExceptionType::TypeError, "compile() missing required argument: 'pattern'".to_string())
    );
}

#[test]
fn test_re_invalid_pattern() {
    let (kind, message) = error_of(re_split(&args(&[Some("a("), Some("text")])));
    assert_eq!(kind, ExceptionType::ValueError);
    assert!(message.starts_with("Invalid regex pattern: "));
    assert_eq!(message, format!("Invalid regex pattern: {}", regex::Regex::new("a(").unwrap_err()));
    assert!(re_compile(&args(&[Some("a+b")])).is_ok());
}

#[test]
fn test_re_match_is_search_at_start() {
    for (p, t) in [(r"\d+", "12ab"), (r"\d+", "ab12"), ("x", "abc")] {
        let a = args(&[Some(p), Some(t)]);
        let found = re_search(&a).ok().unwrap();
        let matched = re_match(&a).ok().unwrap();
        match found {
            Some(m) if m.start == 0 => {
                let n = matched.unwrap();
                assert_eq!((n.start, n.end, n.groups), (m.start, m.end, m.groups));
            }
            _ => assert!(matched.is_none()),
        }
    }
}
