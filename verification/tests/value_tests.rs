use std::collections::HashMap;
use quickpython::value::{DictKey, ExceptionType, ExceptionValue, ListValue, MatchObject, TypeObject};

const ALL_TYPES: [ExceptionType; 10] = [
    ExceptionType::Exception,
    ExceptionType::RuntimeError,
    ExceptionType::IndexError,
    ExceptionType::KeyError,
    ExceptionType::ValueError,
    ExceptionType::TypeError,
    ExceptionType::ZeroDivisionError,
    ExceptionType::IteratorError,
    ExceptionType::OSError,
    ExceptionType::AttributeError,
];

#[test]
fn test_exception_type_from_i32_valid() {
    assert_eq!(ExceptionType::from_i32(0), Some(ExceptionType::Exception));
    assert_eq!(ExceptionType::from_i32(1), Some(ExceptionType::RuntimeError));
    assert_eq!(ExceptionType::from_i32(2), Some(ExceptionType::IndexError));
    assert_eq!(ExceptionType::from_i32(3), Some(ExceptionType::KeyError));
    assert_eq!(ExceptionType::from_i32(4), Some(ExceptionType::ValueError));
    assert_eq!(ExceptionType::from_i32(5), Some(ExceptionType::TypeError));
    assert_eq!(ExceptionType::from_i32(6), Some(ExceptionType::ZeroDivisionError));
    assert_eq!(ExceptionType::from_i32(7), Some(ExceptionType::IteratorError));
    assert_eq!(ExceptionType::from_i32(8), Some(ExceptionType::OSError));
    assert_eq!(ExceptionType::from_i32(9), Some(ExceptionType::AttributeError));
}

#[test]
fn test_exception_type_from_i32_invalid() {
    assert_eq!(ExceptionType::from_i32(10), None);
    assert_eq!(ExceptionType::from_i32(-1), None);
    assert_eq!(ExceptionType::from_i32(999), None);
}

#[test]
fn test_exception_type_as_i32() {
    assert_eq!(ExceptionType::Exception.as_i32(), 0);
    assert_eq!(ExceptionType::RuntimeError.as_i32(), 1);
    assert_eq!(ExceptionType::IndexError.as_i32(), 2);
    assert_eq!(ExceptionType::KeyError.as_i32(), 3);
    assert_eq!(ExceptionType::ValueError.as_i32(), 4);
    assert_eq!(ExceptionType::TypeError.as_i32(), 5);
    assert_eq!(ExceptionType::ZeroDivisionError.as_i32(), 6);
    assert_eq!(ExceptionType::IteratorError.as_i32(), 7);
    assert_eq!(ExceptionType::OSError.as_i32(), 8);
    assert_eq!(ExceptionType::AttributeError.as_i32(), 9);
}

#[test]
fn test_exception_type_matches_base_catches_all() {
    assert!(ExceptionType::ValueError.matches(&ExceptionType::Exception));
    assert!(ExceptionType::TypeError.matches(&ExceptionType::Exception));
    assert!(ExceptionType::IndexError.matches(&ExceptionType::Exception));
    assert!(ExceptionType::RuntimeError.matches(&ExceptionType::Exception));
}

#[test]
fn test_exception_type_matches_specific() {
    assert!(ExceptionType::ValueError.matches(&ExceptionType::ValueError));
    assert!(ExceptionType::TypeError.matches(&ExceptionType::TypeError));
    assert!(!ExceptionType::ValueError.matches(&ExceptionType::TypeError));
    assert!(!ExceptionType::TypeError.matches(&ExceptionType::ValueError));
}

#[test]
fn test_dict_key_equality() {
    assert_eq!(DictKey::String("hello".to_string()), DictKey::String("hello".to_string()));
    assert_eq!(DictKey::Int(42), DictKey::Int(42));
    assert_ne!(DictKey::String("hello".to_string()), DictKey::String("world".to_string()));
    assert_ne!(DictKey::Int(42), DictKey::Int(43));
    assert_ne!(DictKey::String("42".to_string()), DictKey::Int(42));
}

#[test]
fn test_dict_key_hash() {
    let mut map = HashMap::new();
    map.insert(DictKey::String("key1".to_string()), 1);
    map.insert(DictKey::Int(42), 2);
    assert_eq!(map.get(&DictKey::String("key1".to_string())), Some(&1));
    assert_eq!(map.get(&DictKey::Int(42)), Some(&2));
    assert_eq!(map.get(&DictKey::String("key2".to_string())), None);
}

#[test]
fn test_dict_key_same_key() {
    let a = DictKey::String("k".to_string());
    assert!(a.same_key(&DictKey::String("k".to_string())));
    assert!(!a.same_key(&DictKey::String("K".to_string())));
    assert!(!DictKey::Int(1).same_key(&DictKey::String("1".to_string())));
    assert!(DictKey::Int(-7).same_key(&DictKey::Int(-7)));
}

#[test]
fn test_match_object_new() {
    let match_obj = MatchObject::new("hello world".to_string(), 0, 5, vec![Some("hello".to_string())]);
    assert_eq!(match_obj.text, "hello world");
    assert_eq!(match_obj.start, 0);
    assert_eq!(match_obj.end, 5);
    assert_eq!(match_obj.groups, vec![Some("hello".to_string())]);
}

#[test]
fn test_exception_code_roundtrip_all() {
    for t in ALL_TYPES.iter() {
        assert_eq!(ExceptionType::from_i32(t.as_i32()), Some(*t));
    }
}

#[test]
fn test_exception_hierarchy_only_base_catches_others() {
    for t in ALL_TYPES.iter() {
        for h in ALL_TYPES.iter() {
            let expected = *h == ExceptionType::Exception || t == h;
            assert_eq!(t.matches(h), expected);
        }
    }
    assert!(!ExceptionType::Exception.matches(&ExceptionType::ValueError));
}

#[test]
fn test_exception_type_names() {
    assert_eq!(ExceptionType::ZeroDivisionError.name(), "ZeroDivisionError");
    assert_eq!(ExceptionType::OSError.name(), "OSError");
    assert_eq!(ExceptionType::Exception.name(), "Exception");
}

#[test]
fn test_type_object_names() {
    assert_eq!(TypeObject::Int.name(), "int");
    assert_eq!(TypeObject::NoneType.name(), "NoneType");
    assert_eq!(TypeObject::Tuple.name(), "tuple");
}

#[test]
fn test_exception_value_new() {
    let e = ExceptionValue::new(ExceptionType::KeyError, "missing".to_string());
    assert_eq!(e.exception_type, ExceptionType::KeyError);
    assert_eq!(e.message, "missing");
    assert!(e.traceback.is_none());
    let same = ExceptionValue::new(ExceptionType::KeyError, "missing".to_string());
    assert!(e.same_exception(&same));
    let other = ExceptionValue::new(ExceptionType::KeyError, "other".to_string());
    assert!(!e.same_exception(&other));
}

#[test]
fn test_list_value_new() {
    let list: ListValue<i64> = ListValue::new();
    assert!(list.items.is_empty());
    assert_eq!(list.version, 0);
}

#[test]
fn test_list_value_with_items() {
    let items = vec![1i64, 2, 3];
    let list = ListValue::with_items(items.clone());
    assert_eq!(list.items, items);
    assert_eq!(list.version, 0);
}

#[test]
fn test_list_value_increment_version() {
    let mut list: ListValue<i64> = ListValue::new();
    assert_eq!(list.version, 0);
    list.increment_version();
    assert_eq!(list.version, 1);
    list.increment_version();
    assert_eq!(list.version, 2);
}

#[test]
fn test_list_value_version_wrapping() {
    let mut list: ListValue<i64> = ListValue::new();
    list.version = usize::MAX;
    list.increment_version();
    assert_eq!(list.version, 0);
}
