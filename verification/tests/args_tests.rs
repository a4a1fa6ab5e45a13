use quickpython::args::{join_args, rename_args, required_arg};
use quickpython::value::{ExceptionType, ExceptionValue};

fn args(v: &[Option<&str>]) -> Vec<Option<String>> {
    v.iter().map(|a| a.map(|s| s.to_string())).collect()
}

fn error_of<T>(r: Result<T, ExceptionValue>) -> (ExceptionType, String) {
    match r {
        Ok(_) => panic!("expected an exception"),
        Err(e) => (e.exception_type, e.message),
    }
}

#[test]
fn test_required_arg() {
    assert_eq!(required_arg(&args(&[Some("/tmp"), None]), "listdir", "path", "path").ok().unwrap(), "/tmp");
    assert_eq!(
        error_of(required_arg(&args(&[]), "listdir", "path", "path")),
        (ExceptionType::TypeError, "listdir() missing required argument: 'path'".to_string())
    );
    assert_eq!(
        error_of(required_arg(&args(&[None]), "getenv", "key", "key")),
        (ExceptionType::TypeError, "key must be a string".to_string())
    );
    assert_eq!(
        error_of(required_arg(&args(&[None]), "loads", "s", "argument")),
        (ExceptionType::TypeError, "argument must be a string".to_string())
    );
}

#[test]
fn test_rename_args() {
    assert_eq!(
        rename_args(&args(&[Some("a"), Some("b"), None])).ok().unwrap(),
        ("a".to_string(), "b".to_string())
    );
    assert_eq!(
        error_of(rename_args(&args(&[Some("a")]))),
        (ExceptionType::TypeError, "rename() requires 2 arguments: old and new".to_string())
    );
    assert_eq!(
        error_of(rename_args(&args(&[None, None]))),
        (ExceptionType::TypeError, "old path must be a string".to_string())
    );
    assert_eq!(
        error_of(rename_args(&args(&[Some("a"), None]))),
        (ExceptionType::TypeError, "new path must be a string".to_string())
    );
}

#[test]
fn test_join_args() {
    assert_eq!(join_args(&args(&[Some("a"), Some("b")])).ok().unwrap(), vec!["a", "b"]);
    assert_eq!(join_args(&args(&[])).ok().unwrap(), Vec::<String>::new());
    assert_eq!(
        error_of(join_args(&args(&[Some("a"), None]))),
        (ExceptionType::TypeError, "all arguments must be strings".to_string())
    );
}
