use quickpython::iteration::{list_next, make_range, range_arity, RangeIter};
use quickpython::value::{ExceptionType, ListValue};

fn collect(mut r: RangeIter) -> Vec<i32> {
    let mut out = Vec::new();
    while let Some(v) = r.next() {
        out.push(v);
    }
    out
}

#[test]
fn test_range_values() {
    assert_eq!(collect(make_range(0, 5, 1).ok().unwrap()), vec![0, 1, 2, 3, 4]);
    assert_eq!(collect(make_range(10, 0, -3).ok().unwrap()), vec![10, 7, 4, 1]);
    assert_eq!(collect(make_range(3, 3, 1).ok().unwrap()), Vec::<i32>::new());
    assert_eq!(collect(make_range(5, 0, 1).ok().unwrap()), Vec::<i32>::new());
    let e = make_range(0, 5, 0).err().unwrap();
    assert_eq!((e.exception_type, e.message.as_str()), (ExceptionType::ValueError, "range() arg 3 must not be zero"));
}

#[test]
fn test_range_arity() {
    assert_eq!(range_arity(4, Some(3), None, None).ok(), Some(3));
    assert_eq!(range_arity(4, Some(7), Some(2), Some(1)).ok(), Some(2));
    assert_eq!(range_arity(2, None, None, Some(1)).ok(), Some(1));
    let e = range_arity(1, None, None, None).err().unwrap();
    assert_eq!(e.message, "invalid range() call: stack too small");
    let e = range_arity(5, Some(9), Some(9), Some(9)).err().unwrap();
    assert_eq!((e.exception_type, e.message.as_str()), (ExceptionType::RuntimeError, "invalid range() call: could not find argument count"));
}

#[test]
fn test_list_iteration_notices_modification() {
    let mut list = ListValue::with_items(vec![10, 20]);
    let version = list.version;
    assert_eq!(list_next(&list, 0, version).ok().unwrap(), Some(0));
    assert_eq!(list_next(&list, 2, version).ok().unwrap(), None);
    list.increment_version();
    let e = list_next(&list, 1, version).err().unwrap();
    assert_eq!((e.exception_type, e.message.as_str()), (ExceptionType::IteratorError, "list modified during iteration"));
}
