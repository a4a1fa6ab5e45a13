use quickpython::objects::{dict_method, list_method, list_set_item, match_method, DictCall, MatchResult};
use quickpython::value::{DictKey, ExceptionType, ListValue, MatchObject};

#[test]
fn test_list_append_and_pop() {
    let mut list = ListValue::with_items(vec![1, 2]);
    assert!(list_method(&mut list, "append", vec![3]).ok().unwrap().is_none());
    assert_eq!(list.items, vec![1, 2, 3]);
    assert_eq!(list.version, 1);
    assert_eq!(list_method(&mut list, "pop", vec![]).ok().unwrap(), Some(3));
    assert_eq!(list.items, vec![1, 2]);
    assert_eq!(list.version, 2);
}

#[test]
fn test_list_method_errors_leave_the_list() {
    let mut list: ListValue<i32> = ListValue::new();
    let e = list_method(&mut list, "pop", vec![]).err().unwrap();
    assert_eq!((e.exception_type, e.message.as_str()), (ExceptionType::IndexError, "pop from empty list"));
    let e = list_method(&mut list, "append", vec![1, 2]).err().unwrap();
    assert_eq!((e.exception_type, e.message.as_str()), (ExceptionType::TypeError, "append() takes exactly one argument"));
    let e = list_method(&mut list, "pop", vec![1]).err().unwrap();
    assert_eq!(e.message, "pop() takes no arguments");
    let e = list_method(&mut list, "sort", vec![]).err().unwrap();
    assert_eq!((e.exception_type, e.message.as_str()), (ExceptionType::RuntimeError, "'list' object has no attribute 'sort'"));
    assert!(list.items.is_empty());
    assert_eq!(list.version, 0);
}

fn sample() -> MatchObject {
    MatchObject::new("ab12".to_string(), 1, 4, vec![Some("b12".to_string()), Some("12".to_string()), None])
}

#[test]
fn test_match_methods() {
    let m = sample();
    match match_method(&m, "group", &vec![]).ok().unwrap() {
        MatchResult::Group(g) => assert_eq!(g, Some("b12".to_string())),
        _ => panic!("expected a group"),
    }
    match match_method(&m, "group", &vec![Some(2)]).ok().unwrap() {
        MatchResult::Group(g) => assert_eq!(g, None),
        _ => panic!("expected a group"),
    }
    match match_method(&m, "groups", &vec![]).ok().unwrap() {
        MatchResult::Groups(gs) => assert_eq!(gs, vec![Some("12".to_string()), None]),
        _ => panic!("expected groups"),
    }
    assert!(matches!(match_method(&m, "start", &vec![]).ok().unwrap(), MatchResult::Int(1)));
    assert!(matches!(match_method(&m, "end", &vec![]).ok().unwrap(), MatchResult::Int(4)));
    assert!(matches!(match_method(&m, "span", &vec![]).ok().unwrap(), MatchResult::Span(1, 4)));
}

#[test]
fn test_match_method_errors() {
    let m = sample();
    let e = match_method(&m, "group", &vec![Some(3)]).err().unwrap();
    assert_eq!((e.exception_type, e.message.as_str()), (ExceptionType::IndexError, "no such group"));
    let e = match_method(&m, "group", &vec![Some(-1)]).err().unwrap();
    assert_eq!(e.message, "no such group");
    let e = match_method(&m, "group", &vec![None]).err().unwrap();
    assert_eq!((e.exception_type, e.message.as_str()), (ExceptionType::TypeError, "group index must be an integer"));
    let e = match_method(&m, "expand", &vec![]).err().unwrap();
    assert_eq!((e.exception_type, e.message.as_str()), (ExceptionType::AttributeError, "'Match' object has no attribute 'expand'"));
}

#[test]
fn test_list_set_item_moves_version() {
    let mut list = ListValue::with_items(vec![1, 2, 3]);
    let v = list.version;
    assert!(list_set_item(&mut list, -1, 9).is_ok());
    assert_eq!(list.items, vec![1, 2, 9]);
    assert_ne!(list.version, v);
    let v = list.version;
    let e = list_set_item(&mut list, 3, 0).unwrap_err();
    assert_eq!((e.exception_type, e.message.as_str()), (ExceptionType::IndexError, "list assignment index out of range"));
    assert_eq!(list.items, vec![1, 2, 9]);
    assert_eq!(list.version, v);
    assert!(list_set_item(&mut list, -4, 0).is_err());
}

#[test]
fn test_dict_method_checks() {
    assert!(matches!(dict_method("keys", &vec![]).ok(), Some(DictCall::Keys)));
    let e = dict_method("keys", &vec![None]).err().unwrap();
    assert_eq!((e.exception_type, e.message.as_str()), (ExceptionType::TypeError, "keys() takes no arguments"));
    match dict_method("get", &vec![Some(DictKey::Int(3)), None]).ok() {
        Some(DictCall::Get(k)) => assert_eq!(k, DictKey::Int(3)),
        _ => panic!("get"),
    }
    let e = dict_method("get", &vec![]).err().unwrap();
    assert_eq!(e.message, "get() takes at least 1 argument (0 given)");
    let e = dict_method("get", &vec![None]).err().unwrap();
    assert_eq!(e.message, "unhashable type");
    let e = dict_method("items", &vec![]).err().unwrap();
    assert_eq!((e.exception_type, e.message.as_str()), (ExceptionType::RuntimeError, "'dict' object has no attribute 'items'"));
}
