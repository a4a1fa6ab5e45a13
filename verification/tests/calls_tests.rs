use quickpython::calls::{check_arity, pop_args};
use quickpython::value::ExceptionType;

#[test]
fn test_pop_args_in_push_order() {
    let mut stack = vec![1, 2, 3, 4];
    assert_eq!(pop_args(&mut stack, 3).ok().unwrap(), vec![2, 3, 4]);
    assert_eq!(stack, vec![1]);
    assert_eq!(pop_args(&mut stack, 0).ok().unwrap(), Vec::<i32>::new());
    assert_eq!(stack, vec![1]);
}

#[test]
fn test_pop_args_underflow() {
    let mut stack = vec![1, 2];
    let e = pop_args(&mut stack, 3).err().unwrap();
    assert_eq!((e.exception_type, e.message.as_str()), (ExceptionType::RuntimeError, "Stack underflow"));
    assert!(stack.is_empty());
}

#[test]
fn test_check_arity_messages() {
    assert!(check_arity("f", 2, 2).is_ok());
    let e = check_arity("f", 1, 2).err().unwrap();
    assert_eq!(e.exception_type, ExceptionType::TypeError);
    assert_eq!(e.message, "f() takes 1 positional argument but 2 were given");
    let e = check_arity("add", 2, 1).err().unwrap();
    assert_eq!(e.message, "add() takes 2 positional arguments but 1 was given");
    let e = check_arity("g", 0, 12).err().unwrap();
    assert_eq!(e.message, "g() takes 0 positional arguments but 12 were given");
}

#[test]
fn test_check_unpack_messages() {
    assert!(quickpython::calls::check_unpack(3, 3).is_ok());
    let e = quickpython::calls::check_unpack(2, 3).err().unwrap();
    assert_eq!(e.exception_type, ExceptionType::ValueError);
    assert_eq!(e.message, "too many values to unpack (expected 2, got 3)");
    let e = quickpython::calls::check_unpack(3, 1).err().unwrap();
    assert_eq!(e.message, "too many values to unpack (expected 3, got 1)");
}
