use quickpython::methods::{call_string_method, MethodArg, MethodResult};
use quickpython::value::ExceptionType;

fn text(s: &str) -> MethodArg {
    MethodArg::Text(s.to_string())
}

fn call(receiver: &str, method: &str, args: Vec<MethodArg>) -> Result<MethodResult, (ExceptionType, String)> {
    call_string_method(&text(receiver), method, &args).map_err(|e| (e.exception_type, e.message))
}

fn as_text(r: Result<MethodResult, (ExceptionType, String)>) -> String {
    match r {
        Ok(MethodResult::Text(s)) => s,
        _ => panic!("expected a string"),
    }
}

fn as_list(r: Result<MethodResult, (ExceptionType, String)>) -> Vec<String> {
    match r {
        Ok(MethodResult::List(v)) => v,
        _ => panic!("expected a list"),
    }
}

fn as_bool(r: Result<MethodResult, (ExceptionType, String)>) -> bool {
    match r {
        Ok(MethodResult::Bool(b)) => b,
        _ => panic!("expected a bool"),
    }
}

fn error(r: Result<MethodResult, (ExceptionType, String)>) -> (ExceptionType, String) {
    match r {
        Err(e) => e,
        Ok(_) => panic!("expected an exception"),
    }
}

#[test]
fn test_string_methods_dispatch() {
    assert_eq!(as_list(call("a b  c", "split", vec![])), vec!["a", "b", "c"]);
    assert_eq!(as_list(call("a b  c", "split", vec![MethodArg::NoneValue])), vec!["a", "b", "c"]);
    assert_eq!(as_list(call("a,b", "split", vec![text(",")])), vec!["a", "b"]);
    assert_eq!(as_text(call("  x ", "strip", vec![])), "x");
    assert!(as_bool(call("hello", "startswith", vec![text("he")])));
    assert!(!as_bool(call("hello", "endswith", vec![text("he")])));
    assert_eq!(as_text(call("AbC", "lower", vec![])), "abc");
    assert_eq!(as_text(call("AbC", "upper", vec![])), "ABC");
    assert_eq!(as_text(call("aXbX", "replace", vec![text("X"), text("-")])), "a-b-");
    let items = MethodArg::List(vec![Some("1".to_string()), Some("2".to_string())]);
    assert_eq!(as_text(call(", ", "join", vec![items])), "1, 2");
}

#[test]
fn test_string_method_errors() {
    let t = ExceptionType::TypeError;
    assert_eq!(error(call("a", "split", vec![MethodArg::Other])), (t, "sep must be string or None".to_string()));
    assert_eq!(error(call("a", "startswith", vec![])), (t, "startswith() takes at least 1 argument".to_string()));
    assert_eq!(error(call("a", "endswith", vec![MethodArg::NoneValue])), (t, "endswith() argument must be str".to_string()));
    assert_eq!(error(call("a", "replace", vec![text("x")])), (t, "replace() takes at least 2 arguments".to_string()));
    assert_eq!(error(call("a", "replace", vec![MethodArg::Other, text("x")])), (t, "replace() argument 1 must be str".to_string()));
    assert_eq!(error(call("a", "replace", vec![text("x"), MethodArg::Other])), (t, "replace() argument 2 must be str".to_string()));
    assert_eq!(error(call("a", "join", vec![])), (t, "join() takes exactly 1 argument".to_string()));
    assert_eq!(error(call("a", "join", vec![text("xy")])), (t, "join() argument must be a list".to_string()));
    assert_eq!(
        error(call("a", "join", vec![MethodArg::List(vec![Some("x".to_string()), None])])),
        (t, "join() requires all items to be strings".to_string())
    );
    assert_eq!(
        error(call("a", "title", vec![])),
        (ExceptionType::AttributeError, "'str' object has no attribute 'title'".to_string())
    );
    assert_eq!(
        call_string_method(&MethodArg::Other, "split", &vec![]).map_err(|e| (e.exception_type, e.message)).err(),
        Some((t, "bound method called on non-string".to_string()))
    );
}
