use quickpython::json::{json_loads, Json};
use quickpython::value::ExceptionType;

#[test]
fn test_json_loads_document() {
    let doc = json_loads(&vec![Some("{\"b\": [1, 2.5, null, true], \"a\": \"x\"}".to_string())]).ok().unwrap();
    assert_eq!(
        doc,
        Json::Object(vec![
            ("a".to_string(), Json::Str("x".to_string())),
            ("b".to_string(), Json::Array(vec![Json::Int(1), Json::Float(2.5f64.to_bits()), Json::Null, Json::Bool(true)])),
        ])
    );
}

#[test]
fn test_json_loads_errors() {
    let e = json_loads(&vec![]).unwrap_err();
    assert_eq!((e.exception_type, e.message.as_str()), (ExceptionType::TypeError, "loads() missing required argument: 's'"));
    let e = json_loads(&vec![None]).unwrap_err();
    assert_eq!((e.exception_type, e.message.as_str()), (ExceptionType::TypeError, "argument must be a string"));
    let e = json_loads(&vec![Some("{oops".to_string())]).unwrap_err();
    assert_eq!(e.exception_type, ExceptionType::ValueError);
    assert!(e.message.starts_with("Invalid JSON: "));
}
